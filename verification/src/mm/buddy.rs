//! Buddy allocator: hands out blocks of `2^order` pages and merges freed blocks
//! with their buddies.
//!
//! Free blocks are kept in one list per order. Blocks are aligned relative to
//! the base of the first region that was added, so a region of `2^k` pages is
//! one block of order `k` whatever its base address is.
use crate::text;
use vstd::arithmetic::power2::*;
use vstd::prelude::*;
use vstd::string::*;

verus! {

/// Default number of orders: 0..10, that is blocks of 1 to 1024 pages.
pub const DEFAULT_MAX_ORDER: usize = 11;

/// Default page size in bytes.
pub const DEFAULT_PAGE_SIZE: usize = 4096;

/// Smallest order (one page).
pub const MIN_ORDER: usize = 0;

/// Page address (physical or virtual).
pub type Address = u64;

/// Allocation order (`2^order` pages).
pub type Order = usize;

/// Configuration of the buddy allocator.
#[derive(Debug, Clone, Copy)]
pub struct BuddyConfig {
    pub max_order: usize,
    pub page_size: usize,
    pub collect_metrics: bool,
    pub log_operations: bool,
}

impl Default for BuddyConfig {
    fn default() -> (r: Self)
        ensures
            r == (BuddyConfig {
                max_order: DEFAULT_MAX_ORDER,
                page_size: DEFAULT_PAGE_SIZE,
                collect_metrics: true,
                log_operations: false,
            }),
    {
        BuddyConfig {
            max_order: DEFAULT_MAX_ORDER,
            page_size: DEFAULT_PAGE_SIZE,
            collect_metrics: true,
            log_operations: false,
        }
    }
}

impl BuddyConfig {
    /// The first rule that the configuration breaks, if any.
    pub open spec fn broken_rule(&self) -> Option<Seq<char>> {
        if self.max_order == 0 {
            Some("max_order must be > 0"@)
        } else if self.page_size == 0 {
            Some("page_size must be > 0"@)
        } else if self.page_size & (self.page_size - 1) as usize != 0 {
            Some("page_size must be a power of two"@)
        } else {
            None
        }
    }

    /// The largest block of this configuration is addressable.
    pub open spec fn addressable(&self) -> bool {
        &&& 0 < self.max_order <= 64
        &&& self.page_size > 0
        &&& block_bytes(self.page_size as int, self.max_order - 1) <= u64::MAX
    }

    pub fn validate(&self) -> (r: Result<(), &'static str>)
        ensures
            match r {
                Ok(_) => self.broken_rule() is None,
                Err(e) => self.broken_rule() == Some(e@),
            },
    {
        if self.max_order == 0 {
            return Err("max_order must be > 0");
        }
        if self.page_size == 0 {
            return Err("page_size must be > 0");
        }
        if self.page_size & (self.page_size - 1) != 0 {
            return Err("page_size must be a power of two");
        }
        Ok(())
    }

    pub fn with_max_order(self, order: usize) -> (r: Self)
        ensures
            r == (BuddyConfig { max_order: order, ..self }),
    {
        BuddyConfig { max_order: order, ..self }
    }

    pub fn with_page_size(self, size: usize) -> (r: Self)
        ensures
            r == (BuddyConfig { page_size: size, ..self }),
    {
        BuddyConfig { page_size: size, ..self }
    }

    pub fn with_metrics(self) -> (r: Self)
        ensures
            r == (BuddyConfig { collect_metrics: true, ..self }),
    {
        BuddyConfig { collect_metrics: true, ..self }
    }
}

/// Errors of the buddy allocator.
#[derive(Debug, Clone, PartialEq, Eq)]
pub enum BuddyError {
    AllocationFailed { order: usize },
    InvalidOrder { order: usize, max_order: usize },
    InvalidAddress { address: u64 },
    DoubleFree { address: u64 },
    BuddyNotFound { address: u64 },
    Config(String),
}

pub type BuddyResult<T> = Result<T, BuddyError>;

/// Statistics about the allocator.
#[derive(Debug, Clone, Copy, PartialEq, Eq)]
pub struct BuddyStats {
    pub total_pages: usize,
    pub free_pages: usize,
    pub allocated_pages: usize,
    pub largest_free_order: Option<usize>,
    pub fragmentation_count: usize,
}

/// An order that may be missing, in words.
pub open spec fn order_text(order: Option<usize>) -> Seq<char> {
    match order {
        Some(n) => "Some("@ + text::decimal(n as nat) + ")"@,
        None => "None"@,
    }
}

impl BuddyStats {
    /// The numbers as lines of text.
    pub fn describe(&self) -> (r: String)
        ensures
            r@ == "Buddy Allocator Statistics:\n  Total pages: "@ + text::decimal(
                self.total_pages as nat,
            ) + "\n  Free pages: "@ + text::decimal(self.free_pages as nat)
                + "\n  Allocated pages: "@ + text::decimal(self.allocated_pages as nat)
                + "\n  Largest free order: "@ + order_text(self.largest_free_order)
                + "\n  Fragmentation count: "@ + text::decimal(self.fragmentation_count as nat)
                + "\n"@,
    {
        let mut out = "Buddy Allocator Statistics:\n  Total pages: ".to_owned();
        text::push_decimal(&mut out, self.total_pages as u64);
        out.append("\n  Free pages: ");
        text::push_decimal(&mut out, self.free_pages as u64);
        out.append("\n  Allocated pages: ");
        text::push_decimal(&mut out, self.allocated_pages as u64);
        out.append("\n  Largest free order: ");
        let ghost mid = out@;
        match self.largest_free_order {
            Some(n) => {
                out.append("Some(");
                text::push_decimal(&mut out, n as u64);
                out.append(")");
            },
            None => {
                out.append("None");
            },
        }
        assert(out@ =~= mid + order_text(self.largest_free_order));
        out.append("\n  Fragmentation count: ");
        text::push_decimal(&mut out, self.fragmentation_count as u64);
        out.append("\n");
        out
    }
}

// ---------------------------------------------------------------------------
// Blocks and free lists
// ---------------------------------------------------------------------------

/// Bytes in a block of `2^order` pages.
pub open spec fn block_bytes(page_size: int, order: int) -> int {
    pow2(order as nat) * page_size
}

/// The two byte ranges `[a, a + n)` and `[b, b + m)` have no byte in common.
pub open spec fn apart(a: int, n: int, b: int, m: int) -> bool {
    a + n <= b || b + m <= a
}

/// Byte `p` lies in a block on one of the free lists.
#[verifier::opaque]
pub open spec fn covers(lists: Seq<Seq<u64>>, page_size: int, p: int) -> bool {
    exists|o: int, i: int|
        0 <= o < lists.len() && 0 <= i < lists[o].len() && #[trigger] lists[o][i] <= p
            < lists[o][i] + block_bytes(page_size, o)
}

/// The second lists cover what the first do and the range `[a, a + n)` besides.
pub open spec fn gains(l1: Seq<Seq<u64>>, l2: Seq<Seq<u64>>, page_size: int, a: int, n: int) -> bool {
    forall|p: int|
        #![trigger covers(l1, page_size, p)]
        #![trigger covers(l2, page_size, p)]
        covers(l2, page_size, p) <==> covers(l1, page_size, p) || a <= p < a + n
}

/// The range `[a, a + n)` meets no block on the free lists.
#[verifier::opaque]
pub open spec fn clear_of(lists: Seq<Seq<u64>>, page_size: int, a: int, n: int) -> bool {
    forall|o: int, i: int|
        0 <= o < lists.len() && 0 <= i < lists[o].len() ==> apart(
            a,
            n,
            #[trigger] lists[o][i] as int,
            block_bytes(page_size, o),
        )
}

/// No two blocks on the free lists have a byte in common.
#[verifier::opaque]
pub open spec fn disjoint(lists: Seq<Seq<u64>>, page_size: int) -> bool {
    forall|o1: int, i1: int, o2: int, i2: int|
        0 <= o1 < lists.len() && 0 <= i1 < lists[o1].len() && 0 <= o2 < lists.len() && 0 <= i2
            < lists[o2].len() && (o1 != o2 || i1 != i2) ==> apart(
            #[trigger] lists[o1][i1] as int,
            block_bytes(page_size, o1),
            #[trigger] lists[o2][i2] as int,
            block_bytes(page_size, o2),
        )
}

/// Every block on the free lists ends within the address space.
#[verifier::opaque]
pub open spec fn in_space(lists: Seq<Seq<u64>>, page_size: int) -> bool {
    forall|o: int, i: int|
        0 <= o < lists.len() && 0 <= i < lists[o].len() ==> #[trigger] lists[o][i] + block_bytes(
            page_size,
            o,
        ) <= u64::MAX + 1
}

/// Pages on the first `n` free lists.
pub open spec fn pages_in(lists: Seq<Seq<u64>>, n: int) -> int
    decreases n,
{
    if n <= 0 {
        0
    } else {
        pages_in(lists, n - 1) + lists[n - 1].len() * pow2((n - 1) as nat)
    }
}

/// The lists with `a` put on the end of list `o`.
pub open spec fn put(lists: Seq<Seq<u64>>, o: int, a: u64) -> Seq<Seq<u64>> {
    lists.update(o, lists[o].push(a))
}

/// The lists with entry `i` of list `o` taken out, its place filled by the
/// list's last entry.
pub open spec fn take_out(lists: Seq<Seq<u64>>, o: int, i: int) -> Seq<Seq<u64>> {
    lists.update(o, lists[o].update(i, lists[o].last()).drop_last())
}

/// Position `i` is the first at which `x` occurs in `s`.
pub open spec fn first_at(s: Seq<u64>, x: int, i: int) -> bool {
    0 <= i < s.len() && s[i] == x && forall|j: int| 0 <= j < i ==> s[j] != x
}

/// The first position of `x` in `s`.
pub open spec fn first_pos(s: Seq<u64>, x: int) -> int {
    choose|i: int| first_at(s, x, i)
}

/// `x` occurs in `s`.
pub open spec fn holds(s: Seq<u64>, x: int) -> bool {
    exists|i: int| 0 <= i < s.len() && #[trigger] s[i] == x
}

/// Address `a` is a multiple of the size of a block of order `o`, counted from
/// `origin`.
pub open spec fn aligned(origin: int, page_size: int, a: int, o: int) -> bool {
    a % block_bytes(page_size, o) == origin % block_bytes(page_size, o)
}

/// The block that together with the block at `a` makes up one of order `o + 1`.
pub open spec fn buddy_of(origin: int, page_size: int, a: int, o: int) -> int {
    if aligned(origin, page_size, a, o + 1) {
        a + block_bytes(page_size, o)
    } else {
        a - block_bytes(page_size, o)
    }
}

/// The lists after the block at `a` of order `o` has been merged with its
/// buddies as far as they are free, and the outcome put on its list.
pub open spec fn merged(
    lists: Seq<Seq<u64>>,
    origin: int,
    page_size: int,
    a: int,
    o: int,
) -> Seq<Seq<u64>>
    decreases lists.len() - o,
{
    let b = buddy_of(origin, page_size, a, o);
    if 0 <= o < lists.len() - 1 && holds(lists[o], b) {
        merged(
            take_out(lists, o, first_pos(lists[o], b)),
            origin,
            page_size,
            if a <= b {
                a
            } else {
                b
            },
            o + 1,
        )
    } else {
        put(lists, o, a as u64)
    }
}

/// The lowest order from `o` up whose list is not empty; the number of lists if
/// there is none.
pub open spec fn source_order(lists: Seq<Seq<u64>>, o: int) -> int
    decreases lists.len() - o,
{
    if o >= lists.len() || lists[o].len() > 0 {
        o
    } else {
        source_order(lists, o + 1)
    }
}

/// The lists after the last block of list `from` was taken and split down to
/// order `to`: the upper halves stay on their lists.
pub open spec fn split(
    lists: Seq<Seq<u64>>,
    page_size: int,
    from: int,
    to: int,
) -> Seq<Seq<u64>> {
    let a = lists[from].last();
    Seq::new(
        lists.len(),
        |o: int|
            if o == from {
                lists[o].drop_last()
            } else if to <= o < from {
                lists[o].push((a + block_bytes(page_size, o)) as u64)
            } else {
                lists[o]
            },
    )
}

/// The largest order from `o` down whose block fits in `rem` pages and is
/// aligned at `a`; order 0 if there is none.
pub open spec fn fit_order(origin: int, page_size: int, a: int, rem: int, o: int) -> int
    decreases o,
{
    if o <= 0 || (pow2(o as nat) <= rem && aligned(origin, page_size, a, o)) {
        o
    } else {
        fit_order(origin, page_size, a, rem, o - 1)
    }
}

/// The lists after `rem` pages from `a` on were cut into the largest blocks that
/// fit, in ascending order of address.
pub open spec fn carved(
    lists: Seq<Seq<u64>>,
    origin: int,
    page_size: int,
    a: int,
    rem: int,
) -> Seq<Seq<u64>>
    decreases rem,
{
    let o = fit_order(origin, page_size, a, rem, lists.len() - 1);
    if rem <= 0 || lists.len() == 0 || pow2(o as nat) > rem {
        lists
    } else {
        proof {
            lemma_pow2_pos(o as nat);
        }
        carved(
            put(lists, o, a as u64),
            origin,
            page_size,
            a + block_bytes(page_size, o),
            rem - pow2(o as nat),
        )
    }
}

// ---------------------------------------------------------------------------
// Facts about blocks and free lists
// ---------------------------------------------------------------------------

pub(crate) proof fn lemma_bytes(page_size: int, o: int)
    requires
        page_size > 0,
        o >= 0,
    ensures
        pow2(o as nat) >= 1,
        block_bytes(page_size, o) > 0,
        block_bytes(page_size, o) >= page_size,
        block_bytes(page_size, o + 1) == 2 * block_bytes(page_size, o),
        pow2((o + 1) as nat) == 2 * pow2(o as nat),
{
    lemma_pow2_pos(o as nat);
    lemma_pow2_unfold((o + 1) as nat);
    let n = pow2(o as nat) as int;
    assert(n * page_size >= page_size) by (nonlinear_arith)
        requires
            n >= 1,
            page_size > 0,
    ;
    assert((2 * n) * page_size == 2 * (n * page_size)) by (nonlinear_arith);
}

pub(crate) proof fn lemma_bytes_mono(page_size: int, o: int, top: int)
    requires
        page_size > 0,
        0 <= o <= top,
    ensures
        block_bytes(page_size, o) <= block_bytes(page_size, top),
        pow2(o as nat) <= pow2(top as nat),
    decreases top - o,
{
    if o < top {
        lemma_bytes_mono(page_size, o, top - 1);
        lemma_bytes(page_size, top - 1);
    }
}

proof fn lemma_first_unique(s: Seq<u64>, x: int, i: int)
    requires
        first_at(s, x, i),
    ensures
        first_pos(s, x) == i,
        holds(s, x),
{
    let j = first_pos(s, x);
    assert(first_at(s, x, j));
    assert(s[i] == x && s[j] == x);
}

pub(crate) proof fn lemma_first_exists(s: Seq<u64>, x: int)
    requires
        holds(s, x),
    ensures
        first_at(s, x, first_pos(s, x)),
{
    let k = choose|i: int| 0 <= i < s.len() && #[trigger] s[i] == x;
    lemma_first_up_to(s, x, k);
}

proof fn lemma_first_up_to(s: Seq<u64>, x: int, k: int)
    requires
        0 <= k < s.len(),
        s[k] == x,
    ensures
        exists|i: int| first_at(s, x, i),
    decreases k,
{
    if forall|j: int| 0 <= j < k ==> s[j] != x {
        assert(first_at(s, x, k));
    } else {
        let j = choose|j: int| 0 <= j < k && s[j] == x;
        lemma_first_up_to(s, x, j);
    }
}

pub(crate) proof fn lemma_pages_same(l1: Seq<Seq<u64>>, l2: Seq<Seq<u64>>, n: int)
    requires
        0 <= n <= l1.len(),
        n <= l2.len(),
        forall|o: int| 0 <= o < n ==> (#[trigger] l1[o]).len() == l2[o].len(),
    ensures
        pages_in(l1, n) == pages_in(l2, n),
    decreases n,
{
    if n > 0 {
        lemma_pages_same(l1, l2, n - 1);
        assert(l1[n - 1].len() == l2[n - 1].len());
    }
}

proof fn lemma_pages_update(lists: Seq<Seq<u64>>, o: int, s: Seq<u64>, n: int)
    requires
        0 <= o < n <= lists.len(),
    ensures
        pages_in(lists.update(o, s), n) == pages_in(lists, n) + (s.len() - lists[o].len()) * pow2(
            o as nat,
        ),
    decreases n,
{
    let l2 = lists.update(o, s);
    if o == n - 1 {
        lemma_pages_same(lists, l2, n - 1);
        let w = pow2(o as nat) as int;
        let x = s.len() as int;
        let y = lists[o].len() as int;
        assert(x * w == y * w + (x - y) * w) by (nonlinear_arith);
    } else {
        lemma_pages_update(lists, o, s, n - 1);
        assert(l2[n - 1] == lists[n - 1]);
    }
}

proof fn lemma_pages_nonneg(lists: Seq<Seq<u64>>, n: int)
    requires
        0 <= n <= lists.len(),
    ensures
        pages_in(lists, n) >= 0,
    decreases n,
{
    if n > 0 {
        lemma_pages_nonneg(lists, n - 1);
        let x = lists[n - 1].len() as int;
        let w = pow2((n - 1) as nat) as int;
        assert(x * w >= 0) by (nonlinear_arith)
            requires
                x >= 0,
                w >= 0,
        ;
    }
}

/// What putting a block on a list does to every notion above.
proof fn lemma_put(lists: Seq<Seq<u64>>, page_size: int, o: int, a: u64)
    requires
        page_size > 0,
        0 <= o < lists.len(),
    ensures
        put(lists, o, a).len() == lists.len(),
        pages_in(put(lists, o, a), lists.len() as int) == pages_in(lists, lists.len() as int)
            + pow2(o as nat),
        gains(lists, put(lists, o, a), page_size, a as int, block_bytes(page_size, o)),
        forall|b: int, n: int|
            clear_of(put(lists, o, a), page_size, b, n) <==> clear_of(lists, page_size, b, n)
                && apart(b, n, a as int, block_bytes(page_size, o)),
        disjoint(lists, page_size) && clear_of(
            lists,
            page_size,
            a as int,
            block_bytes(page_size, o),
        ) ==> disjoint(put(lists, o, a), page_size),
        in_space(lists, page_size) && a + block_bytes(page_size, o) <= u64::MAX + 1 ==> in_space(
            put(lists, o, a),
            page_size,
        ),
{
    let l2 = put(lists, o, a);
    lemma_pages_update(lists, o, lists[o].push(a), lists.len() as int);
    let w = pow2(o as nat) as int;
    assert((lists[o].push(a).len() - lists[o].len()) * w == w) by {
        assert(lists[o].push(a).len() - lists[o].len() == 1);
    }
    let last = lists[o].len() as int;
    assert(l2[o][last] == a);
    assert forall|p: int|
        covers(l2, page_size, p) <==> covers(lists, page_size, p) || a <= p < a + block_bytes(
            page_size,
            o,
        ) by {
        reveal(covers);
        if covers(lists, page_size, p) {
            let (o1, i1) = choose|o1: int, i1: int|
                0 <= o1 < lists.len() && 0 <= i1 < lists[o1].len() && #[trigger] lists[o1][i1] <= p
                    < lists[o1][i1] + block_bytes(page_size, o1);
            assert(l2[o1][i1] == lists[o1][i1]);
        }
        if a <= p < a + block_bytes(page_size, o) {
            assert(l2[o][last] <= p < l2[o][last] + block_bytes(page_size, o));
        }
        if covers(l2, page_size, p) {
            let (o1, i1) = choose|o1: int, i1: int|
                0 <= o1 < l2.len() && 0 <= i1 < l2[o1].len() && #[trigger] l2[o1][i1] <= p
                    < l2[o1][i1] + block_bytes(page_size, o1);
            if !(o1 == o && i1 == last) {
                assert(lists[o1][i1] == l2[o1][i1]);
            }
        }
    }
    assert forall|b: int, n: int|
        clear_of(l2, page_size, b, n) <==> clear_of(lists, page_size, b, n) && apart(
            b,
            n,
            a as int,
            block_bytes(page_size, o),
        ) by {
        reveal(clear_of);
        if clear_of(l2, page_size, b, n) {
            assert(apart(b, n, l2[o][last] as int, block_bytes(page_size, o)));
            assert forall|o1: int, i1: int|
                0 <= o1 < lists.len() && 0 <= i1 < lists[o1].len() implies apart(
                b,
                n,
                #[trigger] lists[o1][i1] as int,
                block_bytes(page_size, o1),
            ) by {
                assert(l2[o1][i1] == lists[o1][i1]);
            }
        }
        if clear_of(lists, page_size, b, n) && apart(
            b,
            n,
            a as int,
            block_bytes(page_size, o),
        ) {
            assert forall|o1: int, i1: int|
                0 <= o1 < l2.len() && 0 <= i1 < l2[o1].len() implies apart(
                b,
                n,
                #[trigger] l2[o1][i1] as int,
                block_bytes(page_size, o1),
            ) by {
                if !(o1 == o && i1 == last) {
                    assert(l2[o1][i1] == lists[o1][i1]);
                }
            }
        }
    }
    if disjoint(lists, page_size) && clear_of(
        lists,
        page_size,
        a as int,
        block_bytes(page_size, o),
    ) {
        reveal(clear_of);
        reveal(disjoint);
        assert forall|o1: int, i1: int, o2: int, i2: int|
            0 <= o1 < l2.len() && 0 <= i1 < l2[o1].len() && 0 <= o2 < l2.len() && 0 <= i2
                < l2[o2].len() && (o1 != o2 || i1 != i2) implies apart(
            #[trigger] l2[o1][i1] as int,
            block_bytes(page_size, o1),
            #[trigger] l2[o2][i2] as int,
            block_bytes(page_size, o2),
        ) by {
            if !(o1 == o && i1 == last) {
                assert(l2[o1][i1] == lists[o1][i1]);
            }
            if !(o2 == o && i2 == last) {
                assert(l2[o2][i2] == lists[o2][i2]);
            }
        }
    }
    if in_space(lists, page_size) && a + block_bytes(page_size, o) <= u64::MAX + 1 {
        reveal(in_space);
        assert forall|o1: int, i1: int| 0 <= o1 < l2.len() && 0 <= i1 < l2[o1].len() implies (
        #[trigger] l2[o1][i1]) + block_bytes(page_size, o1) <= u64::MAX + 1 by {
            if !(o1 == o && i1 == last) {
                assert(l2[o1][i1] == lists[o1][i1]);
            }
        }
    }
}

/// What taking a block off a list does to every notion above.
proof fn lemma_take_out(lists: Seq<Seq<u64>>, page_size: int, o: int, i: int)
    requires
        page_size > 0,
        0 <= o < lists.len(),
        0 <= i < lists[o].len(),
    ensures
        take_out(lists, o, i).len() == lists.len(),
        pages_in(take_out(lists, o, i), lists.len() as int) == pages_in(lists, lists.len() as int)
            - pow2(o as nat),
        gains(
            take_out(lists, o, i),
            lists,
            page_size,
            lists[o][i] as int,
            block_bytes(page_size, o),
        ),
        forall|b: int, n: int|
            clear_of(lists, page_size, b, n) ==> clear_of(take_out(lists, o, i), page_size, b, n)
                && apart(b, n, lists[o][i] as int, block_bytes(page_size, o)),
        disjoint(lists, page_size) ==> disjoint(take_out(lists, o, i), page_size) && clear_of(
            take_out(lists, o, i),
            page_size,
            lists[o][i] as int,
            block_bytes(page_size, o),
        ),
        in_space(lists, page_size) ==> in_space(take_out(lists, o, i), page_size) && lists[o][i]
            + block_bytes(page_size, o) <= u64::MAX + 1,
{
    let l2 = take_out(lists, o, i);
    let a = lists[o][i];
    let s2 = lists[o].update(i, lists[o].last()).drop_last();
    lemma_pages_update(lists, o, s2, lists.len() as int);
    let w = pow2(o as nat) as int;
    assert((s2.len() - lists[o].len()) * w == -w) by (nonlinear_arith)
        requires
            s2.len() - lists[o].len() == -1,
    ;
    let last = lists[o].len() - 1;
    // Entry (o1, i1) of the shorter lists is entry (o1, src(o1, i1)) of the longer ones.
    assert forall|o1: int, i1: int| 0 <= o1 < l2.len() && 0 <= i1 < l2[o1].len() implies (
    #[trigger] l2[o1][i1]) == lists[o1][if o1 == o && i1 == i {
        last
    } else {
        i1
    }] by {}
    assert forall|p: int|
        covers(lists, page_size, p) <==> covers(l2, page_size, p) || a <= p < a + block_bytes(
            page_size,
            o,
        ) by {
        reveal(covers);
        if covers(lists, page_size, p) && !(a <= p < a + block_bytes(page_size, o)) {
            let (o1, i1) = choose|o1: int, i1: int|
                0 <= o1 < lists.len() && 0 <= i1 < lists[o1].len() && #[trigger] lists[o1][i1] <= p
                    < lists[o1][i1] + block_bytes(page_size, o1);
            let j = if o1 == o && i1 == last {
                i
            } else {
                i1
            };
            assert(l2[o1][j] == lists[o1][i1]);
        }
        if covers(l2, page_size, p) {
            let (o1, i1) = choose|o1: int, i1: int|
                0 <= o1 < l2.len() && 0 <= i1 < l2[o1].len() && #[trigger] l2[o1][i1] <= p
                    < l2[o1][i1] + block_bytes(page_size, o1);
            let j = if o1 == o && i1 == i {
                last
            } else {
                i1
            };
            assert(l2[o1][i1] == lists[o1][j]);
        }
        if a <= p < a + block_bytes(page_size, o) {
            assert(lists[o][i] <= p < lists[o][i] + block_bytes(page_size, o));
        }
    }
    assert forall|b: int, n: int| clear_of(lists, page_size, b, n) implies clear_of(
        l2,
        page_size,
        b,
        n,
    ) && apart(b, n, a as int, block_bytes(page_size, o)) by {
        reveal(clear_of);
        assert(apart(b, n, lists[o][i] as int, block_bytes(page_size, o)));
        assert forall|o1: int, i1: int|
            0 <= o1 < l2.len() && 0 <= i1 < l2[o1].len() implies apart(
            b,
            n,
            #[trigger] l2[o1][i1] as int,
            block_bytes(page_size, o1),
        ) by {
            let j = if o1 == o && i1 == i {
                last
            } else {
                i1
            };
            assert(l2[o1][i1] == lists[o1][j]);
        }
    }
    if disjoint(lists, page_size) {
        reveal(disjoint);
        reveal(clear_of);
        assert forall|o1: int, i1: int, o2: int, i2: int|
            0 <= o1 < l2.len() && 0 <= i1 < l2[o1].len() && 0 <= o2 < l2.len() && 0 <= i2
                < l2[o2].len() && (o1 != o2 || i1 != i2) implies apart(
            #[trigger] l2[o1][i1] as int,
            block_bytes(page_size, o1),
            #[trigger] l2[o2][i2] as int,
            block_bytes(page_size, o2),
        ) by {
            let j1 = if o1 == o && i1 == i {
                last
            } else {
                i1
            };
            let j2 = if o2 == o && i2 == i {
                last
            } else {
                i2
            };
            assert(l2[o1][i1] == lists[o1][j1]);
            assert(l2[o2][i2] == lists[o2][j2]);
        }
        assert forall|o1: int, i1: int|
            0 <= o1 < l2.len() && 0 <= i1 < l2[o1].len() implies apart(
            a as int,
            block_bytes(page_size, o),
            #[trigger] l2[o1][i1] as int,
            block_bytes(page_size, o1),
        ) by {
            let j = if o1 == o && i1 == i {
                last
            } else {
                i1
            };
            assert(l2[o1][i1] == lists[o1][j]);
            assert(lists[o][i] == a);
        }
    }
    if in_space(lists, page_size) {
        reveal(in_space);
        assert(lists[o][i] + block_bytes(page_size, o) <= u64::MAX + 1);
        assert forall|o1: int, i1: int| 0 <= o1 < l2.len() && 0 <= i1 < l2[o1].len() implies (
        #[trigger] l2[o1][i1]) + block_bytes(page_size, o1) <= u64::MAX + 1 by {
            let j = if o1 == o && i1 == i {
                last
            } else {
                i1
            };
            assert(l2[o1][i1] == lists[o1][j]);
        }
    }
}

/// What merging a clear block into the lists does to every notion above.
proof fn lemma_merged(lists: Seq<Seq<u64>>, origin: int, page_size: int, a: int, o: int)
    requires
        page_size > 0,
        0 <= o < lists.len(),
        0 <= a,
        a + block_bytes(page_size, o) <= u64::MAX + 1,
        in_space(lists, page_size),
    ensures
        merged(lists, origin, page_size, a, o).len() == lists.len(),
        pages_in(merged(lists, origin, page_size, a, o), lists.len() as int) == pages_in(
            lists,
            lists.len() as int,
        ) + pow2(o as nat),
        gains(
            lists,
            merged(lists, origin, page_size, a, o),
            page_size,
            a,
            block_bytes(page_size, o),
        ),
        disjoint(lists, page_size) && clear_of(lists, page_size, a, block_bytes(page_size, o))
            ==> disjoint(merged(lists, origin, page_size, a, o), page_size),
        in_space(merged(lists, origin, page_size, a, o), page_size),
    decreases lists.len() - o,
{
    lemma_bytes(page_size, o);
    let n = block_bytes(page_size, o);
    let b = buddy_of(origin, page_size, a, o);
    let m = merged(lists, origin, page_size, a, o);
    if o < lists.len() - 1 && holds(lists[o], b) {
        lemma_first_exists(lists[o], b);
        let i = first_pos(lists[o], b);
        let l2 = take_out(lists, o, i);
        let lo = if a <= b {
            a
        } else {
            b
        };
        lemma_take_out(lists, page_size, o, i);
        lemma_clear_join(l2, page_size, a, b, n);
        lemma_merged(l2, origin, page_size, lo, o + 1);
        assert forall|p: int|
            covers(m, page_size, p) <==> covers(lists, page_size, p) || a <= p < a + n by {
            assert(covers(m, page_size, p) <==> covers(l2, page_size, p) || lo <= p < lo + 2 * n);
            assert(covers(lists, page_size, p) <==> covers(l2, page_size, p) || b <= p < b + n);
        }
    } else {
        lemma_put(lists, page_size, o, a as u64);
    }
}

/// What taking the last block of a list and splitting it does to every notion
/// above.
proof fn lemma_split(lists: Seq<Seq<u64>>, page_size: int, from: int, to: int)
    requires
        page_size > 0,
        0 <= to <= from < lists.len(),
        lists[from].len() > 0,
        in_space(lists, page_size),
    ensures
        split(lists, page_size, from, to).len() == lists.len(),
        pages_in(split(lists, page_size, from, to), lists.len() as int) == pages_in(
            lists,
            lists.len() as int,
        ) - pow2(to as nat),
        gains(
            split(lists, page_size, from, to),
            lists,
            page_size,
            lists[from].last() as int,
            block_bytes(page_size, to),
        ),
        disjoint(lists, page_size) ==> disjoint(split(lists, page_size, from, to), page_size)
            && clear_of(
            split(lists, page_size, from, to),
            page_size,
            lists[from].last() as int,
            block_bytes(page_size, to),
        ),
        in_space(split(lists, page_size, from, to), page_size),
        lists[from].last() + block_bytes(page_size, to) <= u64::MAX + 1,
    decreases from - to,
{
    let a = lists[from].last();
    let s = split(lists, page_size, from, to);
    let last = lists[from].len() - 1;
    if to == from {
        assert(lists[from].update(last, a).drop_last() =~= lists[from].drop_last());
        assert(s =~= take_out(lists, from, last));
        lemma_take_out(lists, page_size, from, last);
    } else {
        let s1 = split(lists, page_size, from, to + 1);
        let n = block_bytes(page_size, to);
        lemma_split(lists, page_size, from, to + 1);
        lemma_bytes(page_size, to);
        let up = (a + n) as u64;
        assert(s =~= put(s1, to, up));
        lemma_put(s1, page_size, to, up);
        lemma_clear_split(s1, page_size, a as int, 2 * n, n);
        assert forall|p: int|
            covers(lists, page_size, p) <==> covers(s, page_size, p) || a <= p < a + n by {
            assert(covers(s, page_size, p) <==> covers(s1, page_size, p) || up <= p < up + n);
            assert(covers(lists, page_size, p) <==> covers(s1, page_size, p) || a <= p < a + 2 * n);
        }
    }
}

/// The order that fits is a valid one whose block fits.
pub(crate) proof fn lemma_fit_order(origin: int, page_size: int, a: int, rem: int, o: int)
    requires
        rem > 0,
        o >= 0,
    ensures
        0 <= fit_order(origin, page_size, a, rem, o) <= o,
        pow2(fit_order(origin, page_size, a, rem, o) as nat) <= rem,
    decreases o,
{
    if o > 0 && !(pow2(o as nat) <= rem && aligned(origin, page_size, a, o)) {
        lemma_fit_order(origin, page_size, a, rem, o - 1);
    }
    lemma2_to64();
}

/// What cutting a region into blocks does to every notion above.
proof fn lemma_carved(lists: Seq<Seq<u64>>, origin: int, page_size: int, a: int, rem: int)
    requires
        page_size > 0,
        lists.len() > 0,
        0 <= rem,
        0 <= a,
        a + rem * page_size <= u64::MAX,
        in_space(lists, page_size),
    ensures
        carved(lists, origin, page_size, a, rem).len() == lists.len(),
        pages_in(carved(lists, origin, page_size, a, rem), lists.len() as int) == pages_in(
            lists,
            lists.len() as int,
        ) + rem,
        gains(lists, carved(lists, origin, page_size, a, rem), page_size, a, rem * page_size),
        disjoint(lists, page_size) && clear_of(lists, page_size, a, rem * page_size) ==> disjoint(
            carved(lists, origin, page_size, a, rem),
            page_size,
        ),
        in_space(carved(lists, origin, page_size, a, rem), page_size),
    decreases rem,
{
    if rem > 0 {
        let o = fit_order(origin, page_size, a, rem, lists.len() - 1);
        lemma_fit_order(origin, page_size, a, rem, lists.len() - 1);
        lemma_bytes(page_size, o);
        let k = pow2(o as nat) as int;
        let n = block_bytes(page_size, o);
        let l1 = put(lists, o, a as u64);
        let c = carved(lists, origin, page_size, a, rem);
        assert(rem * page_size == (rem - k) * page_size + k * page_size) by (nonlinear_arith);
        assert((rem - k) * page_size >= 0) by (nonlinear_arith)
            requires
                rem >= k,
                page_size > 0,
        ;
        lemma_put(lists, page_size, o, a as u64);
        lemma_clear_split(lists, page_size, a, rem * page_size, n);
        lemma_carved(l1, origin, page_size, a + n, rem - k);
        assert forall|p: int|
            covers(c, page_size, p) <==> covers(lists, page_size, p) || a <= p < a + rem
                * page_size by {
            assert(covers(c, page_size, p) <==> covers(l1, page_size, p) || a + n <= p < a + n + (
            rem - k) * page_size);
            assert(covers(l1, page_size, p) <==> covers(lists, page_size, p) || a <= p < a + n);
        }
    } else {
        assert(0 * page_size == 0);
    }
}

// ---------------------------------------------------------------------------
// The allocator
// ---------------------------------------------------------------------------

/// `2^order`.
pub(crate) fn pow2_of(order: usize) -> (r: u64)
    requires
        order < 64,
    ensures
        r == pow2(order as nat),
{
    proof {
        lemma_pow2_strictly_increases(order as nat, 64);
        lemma2_to64_rest();
        vstd::bits::lemma_u64_shl_is_mul(1, order as u64);
    }
    1u64 << order
}

/// Position of the first entry equal to `x`.
fn position(list: &Vec<u64>, x: u64) -> (r: Option<usize>)
    ensures
        match r {
            Some(i) => first_at(list@, x as int, i as int),
            None => !holds(list@, x as int),
        },
{
    let mut i: usize = 0;
    while i < list.len()
        invariant
            i <= list.len(),
            forall|j: int| 0 <= j < i ==> list@[j] != x,
        decreases list.len() - i,
    {
        if list[i] == x {
            return Some(i);
        }
        i += 1;
    }
    None
}

/// Buddy allocator core.
#[derive(Debug)]
pub struct BuddyAllocator {
    config: BuddyConfig,
    free: Vec<Vec<Address>>,
    origin: Address,
    total_pages: usize,
    free_pages: usize,
}

/// The configuration, the alignment origin and the size of the memory are those
/// of `pre`.
pub open spec fn same_memory(pre: BuddyAllocator, post: BuddyAllocator) -> bool {
    &&& post.spec_config() == pre.spec_config()
    &&& post.spec_origin() == pre.spec_origin()
    &&& post.spec_total_pages() == pre.spec_total_pages()
}

/// What adding the `pages` pages from `base` on leaves behind: they are cut into the
/// largest aligned blocks, and the first region says from where alignment counts.
pub open spec fn region_outcome(
    pre: BuddyAllocator,
    post: BuddyAllocator,
    base: Address,
    pages: usize,
) -> bool {
    let psz = pre.page_size();
    &&& post.spec_config() == pre.spec_config()
    &&& post.spec_origin() == (if pre.spec_total_pages() == 0 {
        base
    } else {
        pre.spec_origin()
    })
    &&& post.spec_total_pages() == pre.spec_total_pages() + pages
    &&& post.spec_free_pages() == pre.spec_free_pages() + pages
    &&& post.lists() == carved(
        pre.lists(),
        post.spec_origin() as int,
        psz,
        base as int,
        pages as int,
    )
    &&& gains(pre.lists(), post.lists(), psz, base as int, pages * psz)
    &&& pre.no_overlap() && clear_of(pre.lists(), psz, base as int, pages * psz)
        ==> post.no_overlap()
}

/// What an allocation of order `order` returns and leaves behind.
pub open spec fn alloc_outcome(
    pre: BuddyAllocator,
    post: BuddyAllocator,
    order: usize,
    r: BuddyResult<Address>,
) -> bool {
    let l = pre.lists();
    let psz = pre.page_size();
    let from = source_order(l, order as int);
    &&& same_memory(pre, post)
    &&& pre.no_overlap() ==> post.no_overlap()
    &&& if order >= pre.spec_config().max_order {
        &&& post == pre
        &&& r == Err::<Address, BuddyError>(
            BuddyError::InvalidOrder {
                order,
                max_order: (pre.spec_config().max_order - 1) as usize,
            },
        )
    } else if from >= l.len() {
        &&& post == pre
        &&& r == Err::<Address, BuddyError>(BuddyError::AllocationFailed { order })
    } else {
        let a = l[from].last();
        &&& r == Ok::<Address, BuddyError>(a)
        &&& a + block_bytes(psz, order as int) <= u64::MAX + 1
        &&& post.lists() == split(l, psz, from, order as int)
        &&& post.spec_free_pages() == pre.spec_free_pages() - pow2(order as nat)
        &&& gains(post.lists(), l, psz, a as int, block_bytes(psz, order as int))
        &&& pre.no_overlap() ==> clear_of(
            post.lists(),
            psz,
            a as int,
            block_bytes(psz, order as int),
        )
    }
}

/// What freeing the block at `addr` of order `order` returns and leaves behind.
pub open spec fn free_outcome(
    pre: BuddyAllocator,
    post: BuddyAllocator,
    addr: Address,
    order: usize,
    r: BuddyResult<()>,
) -> bool {
    let l = pre.lists();
    let psz = pre.page_size();
    &&& same_memory(pre, post)
    &&& pre.no_overlap() ==> post.no_overlap()
    &&& if order >= pre.spec_config().max_order {
        &&& post == pre
        &&& r == Err::<(), BuddyError>(
            BuddyError::InvalidOrder {
                order,
                max_order: (pre.spec_config().max_order - 1) as usize,
            },
        )
    } else if addr as int % psz != 0 {
        &&& post == pre
        &&& r == Err::<(), BuddyError>(BuddyError::InvalidAddress { address: addr })
    } else if !clear_of(l, psz, addr as int, block_bytes(psz, order as int)) {
        &&& post == pre
        &&& r == Err::<(), BuddyError>(BuddyError::DoubleFree { address: addr })
    } else {
        &&& r is Ok
        &&& post.lists() == merged(
            l,
            pre.spec_origin() as int,
            psz,
            addr as int,
            order as int,
        )
        &&& post.spec_free_pages() == pre.spec_free_pages() + pow2(order as nat)
        &&& gains(l, post.lists(), psz, addr as int, block_bytes(psz, order as int))
    }
}

/// The block can be freed without leaving the address space or the range of the
/// page count.
pub open spec fn freeable(pre: BuddyAllocator, addr: Address, order: usize) -> bool {
    order < pre.spec_config().max_order ==> {
        &&& addr + block_bytes(pre.page_size(), order as int) <= u64::MAX + 1
        &&& pre.spec_free_pages() + pow2(order as nat) <= usize::MAX
    }
}

impl BuddyAllocator {
    pub closed spec fn spec_config(&self) -> BuddyConfig {
        self.config
    }

    /// The free lists, one per order.
    pub closed spec fn lists(&self) -> Seq<Seq<u64>> {
        Seq::new(self.free@.len(), |o: int| self.free@[o]@)
    }

    /// Address from which block alignment is counted.
    pub closed spec fn spec_origin(&self) -> u64 {
        self.origin
    }

    pub closed spec fn spec_total_pages(&self) -> usize {
        self.total_pages
    }

    pub closed spec fn spec_free_pages(&self) -> usize {
        self.free_pages
    }

    pub open spec fn page_size(&self) -> int {
        self.spec_config().page_size as int
    }

    /// One list per order, every block addressable, and the number of free
    /// pages in step with the lists.
    pub open spec fn wf(&self) -> bool {
        &&& self.spec_config().addressable()
        &&& self.lists().len() == self.spec_config().max_order
        &&& in_space(self.lists(), self.page_size())
        &&& pages_in(self.lists(), self.lists().len() as int) == self.spec_free_pages()
    }

    /// No byte is on the free lists twice.
    pub open spec fn no_overlap(&self) -> bool {
        disjoint(self.lists(), self.page_size())
    }

    /// Creates an allocator with no memory.
    pub fn new(config: &BuddyConfig) -> (r: Self)
        requires
            config.addressable(),
        ensures
            r.wf(),
            r.no_overlap(),
            r.spec_config() == *config,
            r.lists() == Seq::new(config.max_order as nat, |o: int| Seq::<u64>::empty()),
            r.spec_total_pages() == 0,
            r.spec_free_pages() == 0,
            forall|p: int| !covers(r.lists(), r.page_size(), p),
    {
        let mut free: Vec<Vec<Address>> = Vec::new();
        let mut k: usize = 0;
        while k < config.max_order
            invariant
                k <= config.max_order,
                free@.len() == k,
                forall|o: int| 0 <= o < k ==> (#[trigger] free@[o])@ == Seq::<u64>::empty(),
            decreases config.max_order - k,
        {
            free.push(Vec::new());
            k += 1;
        }
        let r = BuddyAllocator { config: *config, free, origin: 0, total_pages: 0, free_pages: 0 };
        proof {
            r.lemma_empty();
        }
        r
    }

    proof fn lemma_empty(&self)
        requires
            self.config.addressable(),
            self.free@.len() == self.config.max_order,
            forall|o: int| 0 <= o < self.free@.len() ==> (#[trigger] self.free@[o])@ == Seq::<
                u64,
            >::empty(),
        ensures
            self.no_overlap(),
            self.lists() == Seq::new(
                self.config.max_order as nat,
                |o: int| Seq::<u64>::empty(),
            ),
            pages_in(self.lists(), self.lists().len() as int) == 0,
            in_space(self.lists(), self.page_size()),
            forall|p: int| !covers(self.lists(), self.page_size(), p),
    {
        reveal(disjoint);
        reveal(in_space);
        reveal(covers);
        assert(self.lists() =~= Seq::new(
            self.config.max_order as nat,
            |o: int| Seq::<u64>::empty(),
        ));
        lemma_pages_empty(self.lists(), self.lists().len() as int);
    }

    /// Adds the `pages` pages from `base` on, cut into the largest aligned
    /// blocks.
    pub fn add_region(&mut self, base: Address, pages: usize)
        requires
            old(self).wf(),
            base + pages * old(self).page_size() <= u64::MAX,
            old(self).spec_total_pages() + pages <= usize::MAX,
            old(self).spec_free_pages() + pages <= usize::MAX,
        ensures
            final(self).wf(),
            region_outcome(*old(self), *final(self), base, pages),
    {
        if self.total_pages == 0 {
            self.origin = base;
        }
        let origin = self.origin;
        let ps: u64 = self.config.page_size as u64;
        let top: usize = self.config.max_order - 1;
        let ghost psz = self.page_size();
        let ghost l0 = self.lists();
        let ghost goal = carved(l0, origin as int, psz, base as int, pages as int);
        let mut addr: u64 = base;
        let mut rem: u64 = pages as u64;
        self.total_pages += pages;
        self.free_pages += pages;
        proof {
            assert(rem * psz == pages * psz);
        }
        while rem > 0
            invariant
                self.config == old(self).config,
                self.config.addressable(),
                self.origin == origin,
                self.total_pages == old(self).total_pages + pages,
                self.free_pages == old(self).free_pages + pages,
                ps == self.config.page_size,
                psz == ps,
                psz > 0,
                top == self.config.max_order - 1,
                self.lists().len() == top + 1,
                l0.len() == top + 1,
                l0 == old(self).lists(),
                rem <= pages,
                base + pages * psz <= u64::MAX,
                addr + rem * psz == base + pages * psz,
                carved(self.lists(), origin as int, psz, addr as int, rem as int) == goal,
            decreases rem,
        {
            let mut order: usize = top;
            loop
                invariant
                    order <= top < 64,
                    rem > 0,
                    ps == psz,
                    psz > 0,
                    block_bytes(psz, top as int) <= u64::MAX,
                    fit_order(origin as int, psz, addr as int, rem as int, order as int)
                        == fit_order(origin as int, psz, addr as int, rem as int, top as int),
                ensures
                    order <= top,
                    order == fit_order(
                        origin as int,
                        psz,
                        addr as int,
                        rem as int,
                        top as int,
                    ),
                    pow2(order as nat) <= rem,
                decreases order,
            {
                proof {
                    lemma_bytes_mono(psz, order as int, top as int);
                    lemma_bytes(psz, order as int);
                    lemma_pow2_le_bytes(psz, order as int);
                }
                let size: u64 = pow2_of(order);
                let bytes: u64 = size * ps;
                let fits = addr % bytes == origin % bytes;
                if size <= rem && fits {
                    break;
                }
                if order == 0 {
                    proof {
                        lemma2_to64();
                    }
                    break;
                }
                order -= 1;
            }
            proof {
                lemma_bytes_mono(psz, order as int, top as int);
                lemma_bytes(psz, order as int);
            }
            let size: u64 = pow2_of(order);
            let ghost before = self.lists();
            let ghost bytes = block_bytes(psz, order as int);
            proof {
                assert(size * psz == bytes);
                assert(rem * psz == (rem - size) * psz + size * psz) by (nonlinear_arith);
                assert((rem - size) * psz >= 0) by (nonlinear_arith)
                    requires
                        rem >= size,
                        psz > 0,
                ;
            }
            self.free[order].push(addr);
            proof {
                assert(self.lists() =~= put(before, order as int, addr));
            }
            addr += size * ps;
            rem -= size;
        }
        proof {
            assert(self.lists() == goal);
            lemma_carved(l0, origin as int, psz, base as int, pages as int);
        }
    }

    /// Allocates a block of `2^order` pages: the last block of the lowest list
    /// that serves, split down to the order asked for.
    pub fn allocate(&mut self, order: Order) -> (r: BuddyResult<Address>)
        requires
            old(self).wf(),
        ensures
            final(self).wf(),
            alloc_outcome(*old(self), *final(self), order, r),
    {
        let max: usize = self.config.max_order;
        if order >= max {
            return Err(BuddyError::InvalidOrder { order, max_order: max - 1 });
        }
        let ghost l0 = self.lists();
        let ghost psz = self.page_size();
        let ps: u64 = self.config.page_size as u64;
        let mut fo: usize = order;
        while fo < max && self.free[fo].is_empty()
            invariant
                order <= fo <= max,
                max == self.config.max_order,
                self.lists().len() == max,
                l0 == self.lists(),
                source_order(l0, fo as int) == source_order(l0, order as int),
            decreases max - fo,
        {
            assert(l0[fo as int].len() == 0);
            fo += 1;
        }
        if fo >= max {
            return Err(BuddyError::AllocationFailed { order });
        }
        assert(l0[fo as int].len() > 0);
        let ghost from = fo as int;
        let ghost last = l0[from].len() - 1;
        let addr: u64 = match self.free[fo].pop() {
            Some(a) => a,
            None => 0,
        };
        proof {
            assert(addr == l0[from].last());
            assert(l0[from].update(last, l0[from].last()).drop_last() =~= l0[from].drop_last());
            assert(self.lists() =~= split(l0, psz, from, from));
            lemma_source_order(l0, order as int);
            lemma_split(l0, psz, from, from);
        }
        let mut co: usize = fo;
        while co > order
            invariant
                order <= co <= fo < max <= 64,
                from == fo,
                max == self.config.max_order,
                self.config == old(self).config,
                self.config.addressable(),
                self.origin == old(self).origin,
                self.total_pages == old(self).total_pages,
                self.free_pages == old(self).free_pages,
                ps == self.config.page_size,
                psz == ps,
                psz > 0,
                l0 == old(self).lists(),
                l0.len() == max,
                self.lists().len() == max,
                l0[from].len() > 0,
                addr == l0[from].last(),
                forall|o: int| order <= o < fo ==> (#[trigger] l0[o]).len() == 0,
                addr + block_bytes(psz, co as int) <= u64::MAX + 1,
                self.lists() == split(l0, psz, from, co as int),
            decreases co,
        {
            co -= 1;
            proof {
                lemma_bytes(psz, co as int);
                lemma_bytes_mono(psz, co as int, max - 1);
                lemma_pow2_le_bytes(psz, co as int);
            }
            let ghost before = self.lists();
            let half: u64 = pow2_of(co) * ps;
            let buddy_addr: u64 = addr + half;
            self.free[co].push(buddy_addr);
            proof {
                assert(half == block_bytes(psz, co as int));
                let now = split(l0, psz, from, co as int);
                assert forall|o: int| 0 <= o < max implies self.lists()[o] == #[trigger] now[o] by {
                    if o == co {
                        assert(before[o] == l0[o]);
                    } else {
                        assert(self.lists()[o] == before[o]);
                    }
                }
                assert(self.lists() =~= now);
            }
        }
        proof {
            lemma_split(l0, psz, from, order as int);
            lemma_pages_nonneg(self.lists(), max as int);
        }
        let allocated: u64 = pow2_of(order);
        self.free_pages -= allocated as usize;
        Ok(addr)
    }

    /// Frees a block, merging it with its buddies as far as they are free.
    /// A block of which some byte is free already is refused.
    pub fn free(&mut self, addr: Address, order: Order) -> (r: BuddyResult<()>)
        requires
            old(self).wf(),
            freeable(*old(self), addr, order),
        ensures
            final(self).wf(),
            free_outcome(*old(self), *final(self), addr, order, r),
    {
        let max: usize = self.config.max_order;
        if order >= max {
            return Err(BuddyError::InvalidOrder { order, max_order: max - 1 });
        }
        let ps: u64 = self.config.page_size as u64;
        if addr % ps != 0 {
            return Err(BuddyError::InvalidAddress { address: addr });
        }
        let ghost l0 = self.lists();
        let ghost psz = self.page_size();
        let origin = self.origin;
        let ghost goal = merged(l0, origin as int, psz, addr as int, order as int);
        if !self.is_clear(addr, order) {
            return Err(BuddyError::DoubleFree { address: addr });
        }
        let mut a: u64 = addr;
        let mut o: usize = order;
        let mut open: bool = true;
        while open && o < max - 1
            invariant
                order <= o < max <= 64,
                max == self.config.max_order,
                self.config == old(self).config,
                self.config.addressable(),
                self.origin == origin,
                origin == old(self).origin,
                self.total_pages == old(self).total_pages,
                self.free_pages == old(self).free_pages,
                ps == self.config.page_size,
                psz == ps,
                psz > 0,
                l0 == old(self).lists(),
                l0.len() == max,
                self.lists().len() == max,
                a + block_bytes(psz, o as int) <= u64::MAX + 1,
                in_space(self.lists(), psz),
                merged(self.lists(), origin as int, psz, a as int, o as int) == goal,
                !open ==> o < max - 1 && !holds(
                    self.lists()[o as int],
                    buddy_of(origin as int, psz, a as int, o as int),
                ),
            decreases
                max - o,
                if open {
                    1int
                } else {
                    0int
                },
        {
            proof {
                lemma_bytes(psz, o as int);
                lemma_bytes_mono(psz, o + 1, max - 1);
                lemma_pow2_le_bytes(psz, o as int);
                lemma_bytes_mono(psz, o as int, max - 1);
            }
            let block: u64 = pow2_of(o) * ps;
            let ghost before = self.lists();
            let ghost bud = buddy_of(origin as int, psz, a as int, o as int);
            let buddy: Option<u64> = if a % (2 * block) == origin % (2 * block) {
                a.checked_add(block)
            } else {
                a.checked_sub(block)
            };
            let pos: Option<usize> = match buddy {
                Some(b) => position(&self.free[o], b),
                None => None,
            };
            match (buddy, pos) {
                (Some(b), Some(i)) => {
                    proof {
                        assert(b == bud);
                        lemma_first_unique(before[o as int], bud, i as int);
                        lemma_take_out(before, psz, o as int, i as int);
                    }
                    self.free[o].swap_remove(i);
                    proof {
                        assert(self.lists() =~= take_out(before, o as int, i as int));
                    }
                    if b < a {
                        a = b;
                    }
                    o += 1;
                },
                _ => {
                    proof {
                        if buddy is None {
                            assert(bud < 0 || bud > u64::MAX);
                        }
                        assert(!holds(before[o as int], bud));
                    }
                    open = false;
                },
            }
        }
        let ghost before = self.lists();
        self.free[o].push(a);
        proof {
            assert(self.lists() =~= put(before, o as int, a));
            assert(self.lists() == goal);
            lemma_merged(l0, origin as int, psz, addr as int, order as int);
        }
        let freed: u64 = pow2_of(order);
        self.free_pages += freed as usize;
        Ok(())
    }

    /// Whether no byte of the block is on a free list.
    fn is_clear(&self, addr: Address, order: Order) -> (r: bool)
        requires
            self.wf(),
            order < self.spec_config().max_order,
        ensures
            r == clear_of(
                self.lists(),
                self.page_size(),
                addr as int,
                block_bytes(self.page_size(), order as int),
            ),
    {
        let ghost psz = self.page_size();
        let ghost l = self.lists();
        let ps: u64 = self.config.page_size as u64;
        let max: usize = self.config.max_order;
        proof {
            lemma_bytes_mono(psz, order as int, max - 1);
            lemma_bytes(psz, order as int);
            lemma_pow2_le_bytes(psz, order as int);
        }
        let n: u64 = pow2_of(order) * ps;
        let mut o: usize = 0;
        while o < max
            invariant
                self.wf(),
                max == self.config.max_order,
                max <= 64,
                o <= max,
                l == self.lists(),
                psz == ps,
                psz == self.page_size(),
                psz > 0,
                n == block_bytes(psz, order as int),
                n > 0,
                forall|o1: int, i1: int|
                    0 <= o1 < o && 0 <= i1 < l[o1].len() ==> apart(
                        addr as int,
                        n as int,
                        #[trigger] l[o1][i1] as int,
                        block_bytes(psz, o1),
                    ),
            decreases max - o,
        {
            proof {
                lemma_bytes_mono(psz, o as int, max - 1);
                lemma_bytes(psz, o as int);
                lemma_pow2_le_bytes(psz, o as int);
            }
            let m: u64 = pow2_of(o) * ps;
            assert(l[o as int] == self.free@[o as int]@);
            let mut i: usize = 0;
            while i < self.free[o].len()
                invariant
                    self.wf(),
                    max == self.config.max_order,
                    o < max,
                    l == self.lists(),
                    l[o as int] == self.free@[o as int]@,
                    psz == self.page_size(),
                    n == block_bytes(psz, order as int),
                    m == block_bytes(psz, o as int),
                    n > 0,
                    m > 0,
                    0 <= i <= l[o as int].len(),
                    forall|o1: int, i1: int|
                        0 <= o1 < o && 0 <= i1 < l[o1].len() ==> apart(
                            addr as int,
                            n as int,
                            #[trigger] l[o1][i1] as int,
                            block_bytes(psz, o1),
                        ),
                    forall|i1: int|
                        0 <= i1 < i ==> apart(
                            addr as int,
                            n as int,
                            #[trigger] l[o as int][i1] as int,
                            m as int,
                        ),
                decreases l[o as int].len() - i,
            {
                let b: u64 = self.free[o][i];
                assert(b == l[o as int][i as int]);
                let meets = if addr <= b {
                    b - addr < n
                } else {
                    addr - b < m
                };
                if meets {
                    proof {
                        reveal(clear_of);
                        assert(!apart(
                            addr as int,
                            n as int,
                            l[o as int][i as int] as int,
                            block_bytes(psz, o as int),
                        ));
                    }
                    return false;
                }
                i += 1;
            }
            o += 1;
        }
        proof {
            reveal(clear_of);
        }
        true
    }
}

/// A product of a power of two and a page size is at least the power.
proof fn lemma_pow2_le_bytes(page_size: int, o: int)
    requires
        page_size > 0,
        o >= 0,
    ensures
        pow2(o as nat) <= block_bytes(page_size, o),
{
    let n = pow2(o as nat) as int;
    assert(n <= n * page_size) by (nonlinear_arith)
        requires
            n >= 0,
            page_size > 0,
    ;
}

proof fn lemma_pages_empty(lists: Seq<Seq<u64>>, n: int)
    requires
        0 <= n <= lists.len(),
        forall|o: int| 0 <= o < lists.len() ==> (#[trigger] lists[o]).len() == 0,
    ensures
        pages_in(lists, n) == 0,
    decreases n,
{
    if n > 0 {
        lemma_pages_empty(lists, n - 1);
        assert(lists[n - 1].len() == 0);
    }
}

pub(crate) proof fn lemma_source_order(lists: Seq<Seq<u64>>, o: int)
    requires
        0 <= o <= lists.len(),
    ensures
        o <= source_order(lists, o) <= lists.len(),
        forall|k: int| o <= k < source_order(lists, o) ==> (#[trigger] lists[k]).len() == 0,
        source_order(lists, o) < lists.len() ==> lists[source_order(lists, o)].len() > 0,
    decreases lists.len() - o,
{
    if o < lists.len() && lists[o].len() == 0 {
        lemma_source_order(lists, o + 1);
    }
}

/// A range that is clear of the lists has clear parts that are apart.
proof fn lemma_clear_split(lists: Seq<Seq<u64>>, page_size: int, a: int, n: int, k: int)
    requires
        0 <= k <= n,
    ensures
        clear_of(lists, page_size, a, n) ==> clear_of(lists, page_size, a, k) && clear_of(
            lists,
            page_size,
            a + k,
            n - k,
        ),
{
    reveal(clear_of);
    if clear_of(lists, page_size, a, n) {
        assert forall|o: int, i: int|
            0 <= o < lists.len() && 0 <= i < lists[o].len() implies apart(
            a,
            k,
            #[trigger] lists[o][i] as int,
            block_bytes(page_size, o),
        ) && apart(a + k, n - k, lists[o][i] as int, block_bytes(page_size, o)) by {
            assert(apart(a, n, lists[o][i] as int, block_bytes(page_size, o)));
        }
    }
}

/// Two clear blocks of equal size side by side make a clear block.
proof fn lemma_clear_join(lists: Seq<Seq<u64>>, page_size: int, a: int, b: int, n: int)
    requires
        page_size > 0,
        n > 0,
        a == b + n || b == a + n,
    ensures
        clear_of(lists, page_size, a, n) && clear_of(lists, page_size, b, n) ==> clear_of(
            lists,
            page_size,
            if a <= b {
                a
            } else {
                b
            },
            2 * n,
        ),
{
    reveal(clear_of);
    let lo = if a <= b {
        a
    } else {
        b
    };
    if clear_of(lists, page_size, a, n) && clear_of(lists, page_size, b, n) {
        assert forall|o: int, i: int|
            0 <= o < lists.len() && 0 <= i < lists[o].len() implies apart(
            lo,
            2 * n,
            #[trigger] lists[o][i] as int,
            block_bytes(page_size, o),
        ) by {
            assert(apart(a, n, lists[o][i] as int, block_bytes(page_size, o)));
            assert(apart(b, n, lists[o][i] as int, block_bytes(page_size, o)));
            lemma_bytes(page_size, o);
        }
    }
}

// ---------------------------------------------------------------------------
// Queries
// ---------------------------------------------------------------------------

/// How many of the first `n` lists are not empty.
pub open spec fn nonempty_lists(lists: Seq<Seq<u64>>, n: int) -> int
    decreases n,
{
    if n <= 0 {
        0
    } else {
        nonempty_lists(lists, n - 1) + if lists[n - 1].len() > 0 {
            1int
        } else {
            0int
        }
    }
}

/// `r` is the highest order with a free block, or `None` where there is none.
pub open spec fn is_largest_order(lists: Seq<Seq<u64>>, r: Option<usize>) -> bool {
    match r {
        Some(o) => {
            &&& o < lists.len()
            &&& lists[o as int].len() > 0
            &&& forall|k: int| o < k < lists.len() ==> (#[trigger] lists[k]).len() == 0
        },
        None => forall|k: int| 0 <= k < lists.len() ==> (#[trigger] lists[k]).len() == 0,
    }
}

impl BuddyAllocator {
    /// The highest order with a free block.
    pub fn largest_free_order(&self) -> (r: Option<usize>)
        requires
            self.wf(),
        ensures
            is_largest_order(self.lists(), r),
    {
        let mut o: usize = self.config.max_order;
        while o > 0
            invariant
                self.wf(),
                o <= self.config.max_order,
                forall|k: int|
                    o <= k < self.lists().len() ==> (#[trigger] self.lists()[k]).len() == 0,
            decreases o,
        {
            o -= 1;
            if !self.free[o].is_empty() {
                assert(self.lists()[o as int].len() > 0);
                return Some(o);
            }
            assert(self.lists()[o as int].len() == 0);
        }
        None
    }

    /// Statistics.
    pub fn stats(&self) -> (r: BuddyStats)
        requires
            self.wf(),
        ensures
            stats_of(*self, r),
    {
        BuddyStats {
            total_pages: self.total_pages,
            free_pages: self.free_pages,
            allocated_pages: self.total_pages.saturating_sub(self.free_pages),
            largest_free_order: self.largest_free_order(),
            fragmentation_count: self.free_list_count(),
        }
    }

    pub fn total_pages(&self) -> (r: usize)
        ensures
            r == self.spec_total_pages(),
    {
        self.total_pages
    }

    pub fn free_pages(&self) -> (r: usize)
        ensures
            r == self.spec_free_pages(),
    {
        self.free_pages
    }

    /// Whether no region was added.
    pub fn is_empty(&self) -> (r: bool)
        ensures
            r == (self.spec_total_pages() == 0),
    {
        self.total_pages == 0
    }

    /// Forgets all regions.
    pub fn reset(&mut self)
        requires
            old(self).wf(),
        ensures
            final(self).wf(),
            final(self).no_overlap(),
            final(self).spec_config() == old(self).spec_config(),
            final(self).lists() == Seq::new(
                old(self).spec_config().max_order as nat,
                |o: int| Seq::<u64>::empty(),
            ),
            final(self).spec_total_pages() == 0,
            final(self).spec_free_pages() == 0,
    {
        let mut o: usize = 0;
        while o < self.free.len()
            invariant
                self.config == old(self).config,
                self.free@.len() == old(self).free@.len(),
                o <= self.free@.len(),
                forall|k: int| 0 <= k < o ==> (#[trigger] self.free@[k])@ == Seq::<u64>::empty(),
            decreases self.free@.len() - o,
        {
            self.free[o].clear();
            o += 1;
        }
        self.total_pages = 0;
        self.free_pages = 0;
        proof {
            self.lemma_empty();
        }
    }

    /// How many free lists are not empty.
    pub fn free_list_count(&self) -> (r: usize)
        requires
            self.wf(),
        ensures
            r == nonempty_lists(self.lists(), self.lists().len() as int),
    {
        let mut n: usize = 0;
        let mut o: usize = 0;
        while o < self.free.len()
            invariant
                self.wf(),
                o <= self.free@.len(),
                n <= o,
                n == nonempty_lists(self.lists(), o as int),
            decreases self.free@.len() - o,
        {
            assert(self.lists()[o as int] == self.free@[o as int]@);
            if !self.free[o].is_empty() {
                n += 1;
            }
            o += 1;
        }
        n
    }
}

impl Default for BuddyAllocator {
    fn default() -> (r: Self)
        ensures
            r.wf(),
            r.no_overlap(),
            r.spec_config().max_order == DEFAULT_MAX_ORDER,
            r.spec_config().page_size == DEFAULT_PAGE_SIZE,
            r.spec_config().collect_metrics && !r.spec_config().log_operations,
            r.spec_total_pages() == 0,
            r.spec_free_pages() == 0,
            r.lists() == Seq::new(DEFAULT_MAX_ORDER as nat, |o: int| Seq::<u64>::empty()),
    {
        let config = BuddyConfig::default();
        proof {
            lemma2_to64();
        }
        Self::new(&config)
    }
}

/// Counters of the buddy allocator.
#[derive(Debug, Clone, Copy, PartialEq, Eq)]
pub struct BuddyMetrics {
    pub allocations: u64,
    pub frees: u64,
    pub allocation_failures: u64,
    pub free_failures: u64,
    pub total_pages_allocated: u64,
    pub total_pages_freed: u64,
    pub coalesces: u64,
}

impl Default for BuddyMetrics {
    fn default() -> (r: Self)
        ensures
            r == (BuddyMetrics {
                allocations: 0,
                frees: 0,
                allocation_failures: 0,
                free_failures: 0,
                total_pages_allocated: 0,
                total_pages_freed: 0,
                coalesces: 0,
            }),
    {
        BuddyMetrics {
            allocations: 0,
            frees: 0,
            allocation_failures: 0,
            free_failures: 0,
            total_pages_allocated: 0,
            total_pages_freed: 0,
            coalesces: 0,
        }
    }
}

impl BuddyMetrics {
    pub fn inc_alloc(&mut self, pages: usize)
        ensures
            *final(self) == (BuddyMetrics {
                allocations: old(self).allocations.wrapping_add(1),
                total_pages_allocated: old(self).total_pages_allocated.wrapping_add(pages as u64),
                ..*old(self)
            }),
    {
        self.allocations = self.allocations.wrapping_add(1);
        self.total_pages_allocated = self.total_pages_allocated.wrapping_add(pages as u64);
    }

    pub fn inc_free(&mut self, pages: usize)
        ensures
            *final(self) == (BuddyMetrics {
                frees: old(self).frees.wrapping_add(1),
                total_pages_freed: old(self).total_pages_freed.wrapping_add(pages as u64),
                ..*old(self)
            }),
    {
        self.frees = self.frees.wrapping_add(1);
        self.total_pages_freed = self.total_pages_freed.wrapping_add(pages as u64);
    }

    pub fn inc_alloc_failure(&mut self)
        ensures
            *final(self) == (BuddyMetrics {
                allocation_failures: old(self).allocation_failures.wrapping_add(1),
                ..*old(self)
            }),
    {
        self.allocation_failures = self.allocation_failures.wrapping_add(1);
    }

    pub fn inc_free_failure(&mut self)
        ensures
            *final(self) == (BuddyMetrics {
                free_failures: old(self).free_failures.wrapping_add(1),
                ..*old(self)
            }),
    {
        self.free_failures = self.free_failures.wrapping_add(1);
    }

    pub fn inc_coalesce(&mut self)
        ensures
            *final(self) == (BuddyMetrics {
                coalesces: old(self).coalesces.wrapping_add(1),
                ..*old(self)
            }),
    {
        self.coalesces = self.coalesces.wrapping_add(1);
    }

    /// A copy of the counters.
    pub fn snapshot(&self) -> (r: BuddyMetricsSnapshot)
        ensures
            r == (BuddyMetricsSnapshot {
                allocations: self.allocations,
                frees: self.frees,
                allocation_failures: self.allocation_failures,
                free_failures: self.free_failures,
                total_pages_allocated: self.total_pages_allocated,
                total_pages_freed: self.total_pages_freed,
                coalesces: self.coalesces,
            }),
    {
        BuddyMetricsSnapshot {
            allocations: self.allocations,
            frees: self.frees,
            allocation_failures: self.allocation_failures,
            free_failures: self.free_failures,
            total_pages_allocated: self.total_pages_allocated,
            total_pages_freed: self.total_pages_freed,
            coalesces: self.coalesces,
        }
    }
}

/// A copy of [`BuddyMetrics`] at one moment.
#[derive(Debug, Clone, Copy, PartialEq, Eq)]
pub struct BuddyMetricsSnapshot {
    pub allocations: u64,
    pub frees: u64,
    pub allocation_failures: u64,
    pub free_failures: u64,
    pub total_pages_allocated: u64,
    pub total_pages_freed: u64,
    pub coalesces: u64,
}

// ---------------------------------------------------------------------------
// Manager
// ---------------------------------------------------------------------------

/// Buddy allocator with counters and an initialisation flag.
#[derive(Debug)]
pub struct BuddyManager {
    config: BuddyConfig,
    allocator: BuddyAllocator,
    metrics: BuddyMetrics,
    initialised: bool,
}

impl BuddyManager {
    pub closed spec fn spec_config(&self) -> BuddyConfig {
        self.config
    }

    pub closed spec fn inner(&self) -> BuddyAllocator {
        self.allocator
    }

    pub closed spec fn spec_metrics(&self) -> BuddyMetrics {
        self.metrics
    }

    pub closed spec fn ready(&self) -> bool {
        self.initialised
    }

    pub open spec fn wf(&self) -> bool {
        &&& self.inner().wf()
        &&& self.inner().spec_config() == self.spec_config()
    }

    /// Creates a manager; the configuration must be valid.
    pub fn new(config: BuddyConfig) -> (r: Self)
        requires
            config.broken_rule() is None,
            config.addressable(),
        ensures
            r.wf(),
            r.spec_config() == config,
            r.inner().no_overlap(),
            r.inner().spec_total_pages() == 0,
            r.inner().spec_free_pages() == 0,
            r.inner().lists() == Seq::new(config.max_order as nat, |o: int| Seq::<u64>::empty()),
            r.spec_metrics() == (BuddyMetrics {
                allocations: 0,
                frees: 0,
                allocation_failures: 0,
                free_failures: 0,
                total_pages_allocated: 0,
                total_pages_freed: 0,
                coalesces: 0,
            }),
            !r.ready(),
    {
        let allocator = BuddyAllocator::new(&config);
        BuddyManager { config, allocator, metrics: BuddyMetrics::default(), initialised: false }
    }

    /// Creates a manager with the default configuration.
    pub fn default() -> (r: Self)
        ensures
            r.wf(),
            r.spec_config() == (BuddyConfig {
                max_order: DEFAULT_MAX_ORDER,
                page_size: DEFAULT_PAGE_SIZE,
                collect_metrics: true,
                log_operations: false,
            }),
            r.inner().no_overlap(),
            r.inner().spec_total_pages() == 0,
            r.inner().spec_free_pages() == 0,
            r.inner().lists() == Seq::new(DEFAULT_MAX_ORDER as nat, |o: int| Seq::<u64>::empty()),
            !r.ready(),
    {
        proof {
            lemma2_to64();
            assert(4096usize & (4096usize - 1) as usize == 0) by (bit_vector);
        }
        Self::new(BuddyConfig::default())
    }

    /// A block of that order can be allocated.
    pub open spec fn has_block(&self, order: usize) -> bool {
        &&& self.ready()
        &&& order < self.inner().spec_config().max_order
        &&& source_order(self.inner().lists(), order as int) < self.inner().lists().len()
    }

    pub fn metrics(&self) -> (r: &BuddyMetrics)
        ensures
            *r == self.spec_metrics(),
    {
        &self.metrics
    }

    pub fn config(&self) -> (r: &BuddyConfig)
        ensures
            *r == self.spec_config(),
    {
        &self.config
    }

    /// Hands a region to the allocator.
    pub fn init(&mut self, base: Address, pages: usize)
        requires
            old(self).wf(),
            base + pages * old(self).inner().page_size() <= u64::MAX,
            old(self).inner().spec_total_pages() + pages <= usize::MAX,
            old(self).inner().spec_free_pages() + pages <= usize::MAX,
        ensures
            final(self).wf(),
            final(self).ready(),
            final(self).spec_config() == old(self).spec_config(),
            final(self).spec_metrics() == old(self).spec_metrics(),
            final(self).inner().spec_total_pages() == old(self).inner().spec_total_pages() + pages,
            final(self).inner().spec_free_pages() == old(self).inner().spec_free_pages() + pages,
            final(self).inner().lists() == carved(
                old(self).inner().lists(),
                final(self).inner().spec_origin() as int,
                old(self).inner().page_size(),
                base as int,
                pages as int,
            ),
            final(self).inner().spec_origin() == (if old(self).inner().spec_total_pages() == 0 {
                base
            } else {
                old(self).inner().spec_origin()
            }),
            old(self).inner().no_overlap() && clear_of(
                old(self).inner().lists(),
                old(self).inner().page_size(),
                base as int,
                pages * old(self).inner().page_size(),
            ) ==> final(self).inner().no_overlap(),
    {
        self.allocator.add_region(base, pages);
        self.initialised = true;
    }

    /// Allocates a block of `2^order` pages and counts the outcome.
    pub fn alloc_pages(&mut self, order: Order) -> (r: BuddyResult<Address>)
        requires
            old(self).wf(),
        ensures
            final(self).wf(),
            manager_alloc_outcome(*old(self), *final(self), order, r),
    {
        if !self.initialised {
            return Err(BuddyError::AllocationFailed { order });
        }
        let ghost before = self.allocator;
        match self.allocator.allocate(order) {
            Ok(addr) => {
                proof {
                    let from = source_order(before.lists(), order as int);
                    lemma_source_order(before.lists(), order as int);
                    lemma_pages_at_least(before.lists(), from, before.lists().len() as int);
                    lemma_bytes_mono(1, order as int, from);
                }
                let pages: u64 = pow2_of(order);
                self.metrics.inc_alloc(pages as usize);
                Ok(addr)
            },
            Err(e) => {
                self.metrics.inc_alloc_failure();
                Err(e)
            },
        }
    }

    /// Frees a block of `2^order` pages and counts the outcome.
    pub fn free_pages(&mut self, addr: Address, order: Order) -> (r: BuddyResult<()>)
        requires
            old(self).wf(),
            freeable(old(self).inner(), addr, order),
        ensures
            final(self).wf(),
            manager_free_outcome(*old(self), *final(self), addr, order, r),
    {
        if !self.initialised {
            return Err(BuddyError::BuddyNotFound { address: addr });
        }
        match self.allocator.free(addr, order) {
            Ok(()) => {
                let pages: u64 = pow2_of(order);
                self.metrics.inc_free(pages as usize);
                Ok(())
            },
            Err(e) => {
                self.metrics.inc_free_failure();
                Err(e)
            },
        }
    }

    /// Allocates a single page.
    pub fn alloc_page(&mut self) -> (r: BuddyResult<Address>)
        requires
            old(self).wf(),
        ensures
            final(self).wf(),
            manager_alloc_outcome(*old(self), *final(self), 0, r),
    {
        self.alloc_pages(0)
    }

    /// Frees a single page.
    pub fn free_page(&mut self, addr: Address) -> (r: BuddyResult<()>)
        requires
            old(self).wf(),
            freeable(old(self).inner(), addr, 0),
        ensures
            final(self).wf(),
            manager_free_outcome(*old(self), *final(self), addr, 0, r),
    {
        self.free_pages(addr, 0)
    }

    pub fn stats(&self) -> (r: BuddyStats)
        requires
            self.wf(),
        ensures
            stats_of(self.inner(), r),
    {
        self.allocator.stats()
    }

    pub fn total_pages(&self) -> (r: usize)
        ensures
            r == self.inner().spec_total_pages(),
    {
        self.allocator.total_pages()
    }

    /// Number of free pages.
    pub fn free_page_count(&self) -> (r: usize)
        ensures
            r == self.inner().spec_free_pages(),
    {
        self.allocator.free_pages()
    }

    pub fn is_initialised(&self) -> (r: bool)
        ensures
            r == self.ready(),
    {
        self.initialised
    }

    /// Forgets all regions; the counters stay.
    pub fn reset(&mut self)
        requires
            old(self).wf(),
        ensures
            final(self).wf(),
            !final(self).ready(),
            final(self).spec_config() == old(self).spec_config(),
            final(self).spec_metrics() == old(self).spec_metrics(),
            final(self).inner().no_overlap(),
            final(self).inner().spec_total_pages() == 0,
            final(self).inner().spec_free_pages() == 0,
            final(self).inner().lists() == Seq::new(
                old(self).spec_config().max_order as nat,
                |o: int| Seq::<u64>::empty(),
            ),
    {
        self.allocator.reset();
        self.initialised = false;
    }

    pub fn metrics_snapshot(&self) -> (r: BuddyMetricsSnapshot)
        ensures
            r == snapshot_of(self.spec_metrics()),
    {
        self.metrics.snapshot()
    }
}

pub open spec fn snapshot_of(m: BuddyMetrics) -> BuddyMetricsSnapshot {
    BuddyMetricsSnapshot {
        allocations: m.allocations,
        frees: m.frees,
        allocation_failures: m.allocation_failures,
        free_failures: m.free_failures,
        total_pages_allocated: m.total_pages_allocated,
        total_pages_freed: m.total_pages_freed,
        coalesces: m.coalesces,
    }
}

/// The statistics of `inner`.
pub open spec fn stats_of(inner: BuddyAllocator, r: BuddyStats) -> bool {
    &&& r.total_pages == inner.spec_total_pages()
    &&& r.free_pages == inner.spec_free_pages()
    &&& r.allocated_pages == (if inner.spec_total_pages() >= inner.spec_free_pages() {
        inner.spec_total_pages() - inner.spec_free_pages()
    } else {
        0
    })
    &&& is_largest_order(inner.lists(), r.largest_free_order)
    &&& r.fragmentation_count == nonempty_lists(inner.lists(), inner.lists().len() as int)
}

/// What an allocation through the manager returns and leaves behind. Before
/// initialisation it fails and counts nothing.
pub open spec fn manager_alloc_outcome(
    pre: BuddyManager,
    post: BuddyManager,
    order: usize,
    r: BuddyResult<Address>,
) -> bool {
    &&& post.spec_config() == pre.spec_config()
    &&& post.ready() == pre.ready()
    &&& if !pre.ready() {
        &&& r == Err::<Address, BuddyError>(BuddyError::AllocationFailed { order })
        &&& post == pre
    } else {
        &&& alloc_outcome(pre.inner(), post.inner(), order, r)
        &&& post.spec_metrics() == if r is Ok {
            BuddyMetrics {
                allocations: pre.spec_metrics().allocations.wrapping_add(1),
                total_pages_allocated: pre.spec_metrics().total_pages_allocated.wrapping_add(
                    pow2(order as nat) as u64,
                ),
                ..pre.spec_metrics()
            }
        } else {
            BuddyMetrics {
                allocation_failures: pre.spec_metrics().allocation_failures.wrapping_add(1),
                ..pre.spec_metrics()
            }
        }
    }
}

/// What freeing through the manager returns and leaves behind. Before
/// initialisation it fails and counts nothing.
pub open spec fn manager_free_outcome(
    pre: BuddyManager,
    post: BuddyManager,
    addr: Address,
    order: usize,
    r: BuddyResult<()>,
) -> bool {
    &&& post.spec_config() == pre.spec_config()
    &&& post.ready() == pre.ready()
    &&& if !pre.ready() {
        &&& r == Err::<(), BuddyError>(BuddyError::BuddyNotFound { address: addr })
        &&& post == pre
    } else {
        &&& free_outcome(pre.inner(), post.inner(), addr, order, r)
        &&& post.spec_metrics() == if r is Ok {
            BuddyMetrics {
                frees: pre.spec_metrics().frees.wrapping_add(1),
                total_pages_freed: pre.spec_metrics().total_pages_freed.wrapping_add(
                    pow2(order as nat) as u64,
                ),
                ..pre.spec_metrics()
            }
        } else {
            BuddyMetrics {
                free_failures: pre.spec_metrics().free_failures.wrapping_add(1),
                ..pre.spec_metrics()
            }
        }
    }
}

/// A list that is not empty accounts for at least one of its blocks.
proof fn lemma_pages_at_least(lists: Seq<Seq<u64>>, o: int, n: int)
    requires
        0 <= o < n <= lists.len(),
        lists[o].len() > 0,
    ensures
        pages_in(lists, n) >= pow2(o as nat),
    decreases n,
{
    if o == n - 1 {
        lemma_pages_nonneg(lists, n - 1);
        let x = lists[o].len() as int;
        let w = pow2(o as nat) as int;
        assert(x * w >= w) by (nonlinear_arith)
            requires
                x >= 1,
                w >= 0,
        ;
    } else {
        lemma_pages_at_least(lists, o, n - 1);
        lemma_pages_nonneg(lists, n);
        let x = lists[n - 1].len() as int;
        let w = pow2((n - 1) as nat) as int;
        assert(x * w >= 0) by (nonlinear_arith)
            requires
                x >= 0,
                w >= 0,
        ;
    }
}

// ---------------------------------------------------------------------------
// The kernel-wide instance, which its owner passes in
// ---------------------------------------------------------------------------

/// A region can be handed to the instance, or to a new one.
pub open spec fn init_fits(global: Option<BuddyManager>, base: Address, pages: usize) -> bool {
    match global {
        Some(m) => {
            &&& m.wf()
            &&& base + pages * m.inner().page_size() <= u64::MAX
            &&& m.inner().spec_total_pages() + pages <= usize::MAX
            &&& m.inner().spec_free_pages() + pages <= usize::MAX
        },
        None => base + pages * DEFAULT_PAGE_SIZE <= u64::MAX,
    }
}

/// What handing a region to the instance leaves behind.
pub open spec fn init_outcome(
    pre: Option<BuddyManager>,
    post: Option<BuddyManager>,
    base: Address,
    pages: usize,
) -> bool {
    post matches Some(m) && m.wf() && m.ready() && match pre {
        Some(pre) => {
            &&& m.spec_config() == pre.spec_config()
            &&& m.spec_metrics() == pre.spec_metrics()
            &&& m.inner().spec_total_pages() == pre.inner().spec_total_pages() + pages
            &&& m.inner().spec_free_pages() == pre.inner().spec_free_pages() + pages
            &&& m.inner().lists() == carved(
                pre.inner().lists(),
                m.inner().spec_origin() as int,
                pre.inner().page_size(),
                base as int,
                pages as int,
            )
        },
        None => {
            &&& m.spec_config().max_order == DEFAULT_MAX_ORDER
            &&& m.spec_config().page_size == DEFAULT_PAGE_SIZE
            &&& m.inner().spec_origin() == base
            &&& m.inner().spec_total_pages() == pages
            &&& m.inner().spec_free_pages() == pages
            &&& m.inner().lists() == carved(
                Seq::new(DEFAULT_MAX_ORDER as nat, |o: int| Seq::<u64>::empty()),
                base as int,
                DEFAULT_PAGE_SIZE as int,
                base as int,
                pages as int,
            )
        },
    }
}

/// Sets up the instance on first use and hands it a region.
pub fn init(global: &mut Option<BuddyManager>, base: Address, pages: usize)
    requires
        init_fits(*old(global), base, pages),
    ensures
        init_outcome(*old(global), *final(global), base, pages),
{
    match global {
        Some(m) => {
            m.init(base, pages);
        },
        None => {
            let mut m = BuddyManager::default();
            m.init(base, pages);
            *global = Some(m);
        },
    }
}

/// Allocates `2^order` pages.
pub fn alloc_pages(manager: &mut BuddyManager, order: Order) -> (r: Option<Address>)
    requires
        old(manager).wf(),
    ensures
        final(manager).wf(),
        exists|res: BuddyResult<Address>|
            manager_alloc_outcome(*old(manager), *final(manager), order, res) && r == match res {
                Ok(a) => Some(a),
                Err(_) => None,
            },
{
    let res = manager.alloc_pages(order);
    let ghost outcome = res;
    match res {
        Ok(a) => {
            assert(manager_alloc_outcome(*old(manager), *manager, order, outcome));
            Some(a)
        },
        Err(_) => {
            assert(manager_alloc_outcome(*old(manager), *manager, order, outcome));
            None
        },
    }
}

/// Frees `2^order` pages; a failure only shows in the counters.
pub fn free_pages(manager: &mut BuddyManager, addr: Address, order: Order)
    requires
        old(manager).wf(),
        freeable(old(manager).inner(), addr, order),
    ensures
        final(manager).wf(),
        exists|res: BuddyResult<()>|
            manager_free_outcome(*old(manager), *final(manager), addr, order, res),
{
    let res = manager.free_pages(addr, order);
    assert(manager_free_outcome(*old(manager), *manager, addr, order, res));
}

/// Allocates a single page.
pub fn alloc_page(manager: &mut BuddyManager) -> (r: Option<Address>)
    requires
        old(manager).wf(),
    ensures
        final(manager).wf(),
        exists|res: BuddyResult<Address>|
            manager_alloc_outcome(*old(manager), *final(manager), 0, res) && r == match res {
                Ok(a) => Some(a),
                Err(_) => None,
            },
{
    alloc_pages(manager, 0)
}

/// Frees a single page.
pub fn free_page(manager: &mut BuddyManager, addr: Address)
    requires
        old(manager).wf(),
        freeable(old(manager).inner(), addr, 0),
    ensures
        final(manager).wf(),
        exists|res: BuddyResult<()>|
            manager_free_outcome(*old(manager), *final(manager), addr, 0, res),
{
    free_pages(manager, addr, 0)
}

/// Total and free pages.
pub fn stats(manager: &BuddyManager) -> (r: (usize, usize))
    ensures
        r == (manager.inner().spec_total_pages(), manager.inner().spec_free_pages()),
{
    (manager.total_pages(), manager.free_page_count())
}

/// Full statistics.
pub fn full_stats(manager: &BuddyManager) -> (r: BuddyStats)
    requires
        manager.wf(),
    ensures
        stats_of(manager.inner(), r),
{
    manager.stats()
}

/// Forgets all regions.
pub fn reset(manager: &mut BuddyManager)
    requires
        old(manager).wf(),
    ensures
        final(manager).wf(),
        !final(manager).ready(),
        final(manager).spec_config() == old(manager).spec_config(),
        final(manager).spec_metrics() == old(manager).spec_metrics(),
        final(manager).inner().no_overlap(),
        final(manager).inner().spec_total_pages() == 0,
        final(manager).inner().spec_free_pages() == 0,
        final(manager).inner().lists() == Seq::new(
            old(manager).spec_config().max_order as nat,
            |o: int| Seq::<u64>::empty(),
        ),
{
    manager.reset();
}

// ---------------------------------------------------------------------------
// Laws
// ---------------------------------------------------------------------------

/// Freeing what was just allocated gives back exactly the bytes and the pages
/// that were free before, with no overlap. (A block at an address that is no
/// multiple of the page size cannot be freed.)
pub proof fn law_free_undoes_alloc(
    s0: BuddyAllocator,
    s1: BuddyAllocator,
    s2: BuddyAllocator,
    order: usize,
    a: Address,
    freed: BuddyResult<()>,
)
    requires
        s0.wf(),
        s0.no_overlap(),
        a as int % s0.page_size() == 0,
        alloc_outcome(s0, s1, order, Ok(a)),
        free_outcome(s1, s2, a, order, freed),
    ensures
        freed is Ok,
        s2.spec_free_pages() == s0.spec_free_pages(),
        s2.no_overlap(),
        forall|p: int|
            covers(s2.lists(), s2.page_size(), p) <==> covers(s0.lists(), s0.page_size(), p),
{
    let n = block_bytes(s0.page_size(), order as int);
    assert forall|p: int|
        covers(s2.lists(), s2.page_size(), p) <==> covers(s0.lists(), s0.page_size(), p) by {
        assert(covers(s2.lists(), s0.page_size(), p) <==> covers(s1.lists(), s0.page_size(), p) || a
            <= p < a + n);
        assert(covers(s0.lists(), s0.page_size(), p) <==> covers(s1.lists(), s0.page_size(), p) || a
            <= p < a + n);
    }
}

/// Two blocks allocated one after the other have no byte in common.
pub proof fn law_allocations_disjoint(
    s0: BuddyAllocator,
    s1: BuddyAllocator,
    s2: BuddyAllocator,
    o1: usize,
    a1: Address,
    o2: usize,
    a2: Address,
)
    requires
        s0.wf(),
        s1.wf(),
        s0.no_overlap(),
        alloc_outcome(s0, s1, o1, Ok(a1)),
        alloc_outcome(s1, s2, o2, Ok(a2)),
    ensures
        apart(
            a1 as int,
            block_bytes(s0.page_size(), o1 as int),
            a2 as int,
            block_bytes(s0.page_size(), o2 as int),
        ),
{
    let psz = s0.page_size();
    let n1 = block_bytes(psz, o1 as int);
    let n2 = block_bytes(psz, o2 as int);
    lemma_bytes(psz, o1 as int);
    lemma_bytes(psz, o2 as int);
    if !apart(a1 as int, n1, a2 as int, n2) {
        let p = if a1 <= a2 {
            a2 as int
        } else {
            a1 as int
        };
        assert(covers(s1.lists(), psz, p));
        lemma_clear_point(s1.lists(), psz, a1 as int, n1, p);
    }
}

/// Allocated and free pages always add up to the same number of pages: an
/// allocation moves `2^order` pages from free to allocated, and freeing moves
/// them back.
pub proof fn law_pages_conserved(
    s0: BuddyAllocator,
    s1: BuddyAllocator,
    order: usize,
    addr: Address,
    got: BuddyResult<Address>,
    freed: BuddyResult<()>,
)
    ensures
        alloc_outcome(s0, s1, order, got) ==> s1.spec_total_pages() == s0.spec_total_pages()
            && s0.spec_free_pages() == s1.spec_free_pages() + (if got is Ok {
            pow2(order as nat)
        } else {
            0
        }),
        free_outcome(s0, s1, addr, order, freed) ==> s1.spec_total_pages()
            == s0.spec_total_pages() && s1.spec_free_pages() == s0.spec_free_pages() + (
        if freed is Ok {
            pow2(order as nat)
        } else {
            0
        }),
{
}

/// A second free of the same block is refused and changes nothing.
pub proof fn law_double_free_refused(
    s0: BuddyAllocator,
    s1: BuddyAllocator,
    s2: BuddyAllocator,
    addr: Address,
    order: usize,
    again: BuddyResult<()>,
)
    requires
        s0.wf(),
        free_outcome(s0, s1, addr, order, Ok(())),
        free_outcome(s1, s2, addr, order, again),
    ensures
        again == Err::<(), BuddyError>(BuddyError::DoubleFree { address: addr }),
        s2 == s1,
{
    let psz = s0.page_size();
    let n = block_bytes(psz, order as int);
    lemma_bytes(psz, order as int);
    assert(covers(s1.lists(), psz, addr as int));
    if clear_of(s1.lists(), psz, addr as int, n) {
        lemma_clear_point(s1.lists(), psz, addr as int, n, addr as int);
    }
}

/// No byte of a range that is clear of the lists is covered by them.
pub(crate) proof fn lemma_clear_point(lists: Seq<Seq<u64>>, page_size: int, a: int, n: int, p: int)
    requires
        clear_of(lists, page_size, a, n),
        a <= p < a + n,
    ensures
        !covers(lists, page_size, p),
{
    reveal(clear_of);
    reveal(covers);
    if covers(lists, page_size, p) {
        let (o, i) = choose|o: int, i: int|
            0 <= o < lists.len() && 0 <= i < lists[o].len() && #[trigger] lists[o][i] <= p
                < lists[o][i] + block_bytes(page_size, o);
        assert(apart(a, n, lists[o][i] as int, block_bytes(page_size, o)));
    }
}

/// A block of order zero is a page, and a block of each order is twice the one before.
pub proof fn law_blocks_double(page_size: int, order: nat)
    ensures
        block_bytes(page_size, 0) == page_size,
        block_bytes(page_size, order as int + 1) == 2 * block_bytes(page_size, order as int),
{
    vstd::arithmetic::power2::lemma2_to64();
    vstd::arithmetic::power2::lemma_pow2_unfold(order + 1);
    let (p, q) = (pow2(order) as int, pow2(order + 1) as int);
    assert(q * page_size == 2 * (p * page_size)) by (nonlinear_arith)
        requires
            q == 2 * p,
    ;
    assert(1 * page_size == page_size);
}

/// A block is got exactly where one of its order or a higher one is free. It is taken from
/// the lowest such order, at the start of a free block; one of its own order is taken whole
/// and changes no other list, and of a larger one the halves that are not needed are free
/// afterwards, one of each order between, and no block of a higher order changes.
pub proof fn law_smallest_block_is_taken(
    b: &mut BuddyAllocator,
    order: usize,
    r: BuddyResult<Address>,
    k: int,
)
    requires
        old(b).wf(),
        call_ensures(BuddyAllocator::allocate, (b, order), r),
        order < old(b).spec_config().max_order,
        order <= k < old(b).lists().len(),
        old(b).lists()[k].len() > 0,
        forall|j: int| order <= j < k ==> (#[trigger] old(b).lists()[j]).len() == 0,
    ensures
        ({
            let a = old(b).lists()[k].last();
            let was = old(b).lists();
            let now = final(b).lists();
            &&& r == Ok::<Address, BuddyError>(a)
            &&& now.len() == was.len()
            &&& now[k] == was[k].drop_last()
            &&& forall|j: int| k < j < was.len() ==> #[trigger] now[j] == was[j]
            &&& forall|j: int| 0 <= j < order ==> #[trigger] now[j] == was[j]
            &&& forall|j: int|
                order <= j < k ==> (#[trigger] now[j]).len() == 1 && now[j][0] as int == (a
                    + block_bytes(old(b).page_size(), j)) as u64
            &&& final(b).spec_free_pages() + pow2(order as nat) == old(b).spec_free_pages()
        }),
{
    lemma_source_order(old(b).lists(), order as int);
    let from = source_order(old(b).lists(), order as int);
    if from < k {
        assert(old(b).lists()[from].len() == 0);
    }
    assert(from == k);
    let was = old(b).lists();
    let now = final(b).lists();
    assert forall|j: int| order <= j < k implies (#[trigger] now[j]).len() == 1 && now[j][0] as int
        == (old(b).lists()[k].last() + block_bytes(old(b).page_size(), j)) as u64 by {
        assert(was[j].len() == 0);
    }
}

/// Where no block of the order or a higher one is free, none is got and nothing changes;
/// an order beyond the highest is refused as such.
pub proof fn law_no_block_is_no_block(b: &mut BuddyAllocator, order: usize, r: BuddyResult<Address>)
    requires
        old(b).wf(),
        call_ensures(BuddyAllocator::allocate, (b, order), r),
        forall|j: int| order <= j < old(b).lists().len() ==> (#[trigger] old(b).lists()[j]).len()
            == 0,
    ensures
        r is Err,
        *final(b) == *old(b),
        order < old(b).spec_config().max_order ==> r->Err_0 == (BuddyError::AllocationFailed {
            order,
        }),
        order >= old(b).spec_config().max_order ==> r->Err_0 is InvalidOrder,
{
    if order < old(b).spec_config().max_order {
        lemma_source_order(old(b).lists(), order as int);
    }
}

/// A manager counts what it hands out and takes back with its pages, and what it refuses;
/// before it is set up it hands out nothing.
pub proof fn law_manager_counts_its_blocks(
    m: &mut BuddyManager,
    order: usize,
    r: BuddyResult<Address>,
    n: &mut BuddyManager,
    addr: Address,
    back: BuddyResult<()>,
)
    requires
        call_ensures(BuddyManager::alloc_pages, (m, order), r),
        call_ensures(BuddyManager::free_pages, (n, addr, order), back),
        pow2(order as nat) <= u64::MAX,
    ensures
        ({
            let (a, b) = (old(m).spec_metrics(), final(m).spec_metrics());
            &&& !old(m).ready() ==> r is Err && *final(m) == *old(m)
            &&& r is Ok && a.allocations < u64::MAX ==> b.allocations == a.allocations + 1
            &&& r is Ok && a.total_pages_allocated + pow2(order as nat) <= u64::MAX
                ==> b.total_pages_allocated == a.total_pages_allocated + pow2(order as nat)
            &&& r is Err ==> b.allocations == a.allocations && b.total_pages_allocated
                == a.total_pages_allocated
            &&& r is Err && old(m).ready() && a.allocation_failures < u64::MAX
                ==> b.allocation_failures == a.allocation_failures + 1
            &&& b.frees == a.frees && b.total_pages_freed == a.total_pages_freed
        }),
        ({
            let (a, b) = (old(n).spec_metrics(), final(n).spec_metrics());
            &&& !old(n).ready() ==> back is Err && *final(n) == *old(n)
            &&& back is Ok && a.frees < u64::MAX ==> b.frees == a.frees + 1
            &&& back is Ok && a.total_pages_freed + pow2(order as nat) <= u64::MAX
                ==> b.total_pages_freed == a.total_pages_freed + pow2(order as nat)
            &&& back is Err ==> b.frees == a.frees && b.total_pages_freed == a.total_pages_freed
            &&& back is Err && old(n).ready() && a.free_failures < u64::MAX ==> b.free_failures
                == a.free_failures + 1
            &&& b.allocations == a.allocations
        }),
{
}

/// Free and allocated pages make up all pages. The largest free order has a free block and
/// no higher one has; the lists that are not empty are counted, so there are none exactly
/// where there is no largest order.
pub proof fn law_statistics_describe_the_lists(b: &BuddyAllocator, s: BuddyStats, k: int)
    requires
        b.wf(),
        call_ensures(BuddyAllocator::stats, (b,), s),
        0 <= k < b.lists().len(),
    ensures
        s.total_pages == b.spec_total_pages(),
        s.free_pages == b.spec_free_pages(),
        s.free_pages <= s.total_pages ==> s.free_pages + s.allocated_pages == s.total_pages,
        s.largest_free_order matches Some(o) ==> o < b.lists().len() && b.lists()[o as int].len()
            > 0,
        b.lists()[k].len() > 0 ==> s.largest_free_order is Some && s.largest_free_order->0 >= k,
        s.fragmentation_count == 0 <==> s.largest_free_order is None,
        s.fragmentation_count <= b.lists().len(),
{
    lemma_nonempty(b.lists(), b.lists().len() as int);
    if let Some(o) = s.largest_free_order {
        assert(b.lists()[o as int].len() > 0);
    }
}

proof fn lemma_nonempty(lists: Seq<Seq<u64>>, n: int)
    requires
        0 <= n <= lists.len(),
    ensures
        0 <= nonempty_lists(lists, n) <= n,
        nonempty_lists(lists, n) == 0 <==> forall|k: int|
            0 <= k < n ==> (#[trigger] lists[k]).len() == 0,
    decreases n,
{
    if n > 0 {
        lemma_nonempty(lists, n - 1);
        if nonempty_lists(lists, n) == 0 {
            assert forall|k: int| 0 <= k < n implies (#[trigger] lists[k]).len() == 0 by {
                if k < n - 1 {
                    assert(lists[k].len() == 0);
                }
            }
        } else if forall|k: int| 0 <= k < n ==> (#[trigger] lists[k]).len() == 0 {
            assert(lists[n - 1].len() == 0);
            assert(forall|k: int| 0 <= k < n - 1 ==> (#[trigger] lists[k]).len() == 0);
        }
    }
}

/// A region that is added is free, byte by byte, beside what was free; all of its pages are
/// counted.
pub proof fn law_added_region_is_free(b: &mut BuddyAllocator, base: Address, pages: usize, p: int)
    requires
        old(b).wf(),
        call_ensures(BuddyAllocator::add_region, (b, base, pages), ()),
    ensures
        final(b).spec_total_pages() == old(b).spec_total_pages() + pages,
        final(b).spec_free_pages() == old(b).spec_free_pages() + pages,
        covers(final(b).lists(), old(b).page_size(), p) <==> covers(
            old(b).lists(),
            old(b).page_size(),
            p,
        ) || (base <= p && p < base + pages * old(b).page_size()),
{
}

/// Settings pass exactly where there is an order and the page size is a power of two.
pub proof fn law_buddy_settings_are_possible(c: &BuddyConfig, r: Result<(), &'static str>)
    requires
        call_ensures(BuddyConfig::validate, (c,), r),
    ensures
        r is Ok <==> c.max_order > 0 && c.page_size > 0 && c.page_size & (c.page_size - 1) as usize
            == 0,
        c.max_order == 0 ==> r is Err && r->Err_0@ == "max_order must be > 0"@,
{
}

/// The numbers that the manager reports are those that it counted.
pub proof fn law_buddy_report_is_what_was_counted(m: &BuddyManager, r: BuddyMetricsSnapshot)
    requires
        call_ensures(BuddyManager::metrics_snapshot, (m,), r),
    ensures
        r.allocations == m.spec_metrics().allocations,
        r.frees == m.spec_metrics().frees,
        r.allocation_failures == m.spec_metrics().allocation_failures,
        r.free_failures == m.spec_metrics().free_failures,
        r.total_pages_allocated == m.spec_metrics().total_pages_allocated,
        r.total_pages_freed == m.spec_metrics().total_pages_freed,
        r.coalesces == m.spec_metrics().coalesces,
{
}

/// What is told of the blocks has each number on a line behind its name.
pub proof fn law_blocks_are_told_by_name(s: &BuddyStats, r: String)
    requires
        call_ensures(BuddyStats::describe, (s,), r),
    ensures
        text::tells(r@, "Buddy Allocator Statistics:\n  Total pages: "@ + text::decimal(s.total_pages as nat)),
        text::tells(r@, "\n  Free pages: "@ + text::decimal(s.free_pages as nat)),
        text::tells(r@, "\n  Allocated pages: "@ + text::decimal(s.allocated_pages as nat)),
        text::tells(r@, "\n  Largest free order: "@ + order_text(s.largest_free_order)),
        text::tells(r@, "\n  Fragmentation count: "@ + text::decimal(s.fragmentation_count as nat)),
{
    let pieces = seq![
        "Buddy Allocator Statistics:\n  Total pages: "@,
        text::decimal(s.total_pages as nat),
        "\n  Free pages: "@,
        text::decimal(s.free_pages as nat),
        "\n  Allocated pages: "@,
        text::decimal(s.allocated_pages as nat),
        "\n  Largest free order: "@,
        order_text(s.largest_free_order),
        "\n  Fragmentation count: "@,
        text::decimal(s.fragmentation_count as nat),
        "\n"@,
    ];
    reveal_with_fuel(text::put_together, 12);
    assert(r@ == text::put_together(pieces, 11));
    text::lemma_tells(pieces, 11, 0);
    text::lemma_tells(pieces, 11, 2);
    text::lemma_tells(pieces, 11, 4);
    text::lemma_tells(pieces, 11, 6);
    text::lemma_tells(pieces, 11, 8);
}

} // verus!
