//! What the buddy allocator makes of its free blocks. While no two free buddies
//! stand apart, the free bytes alone decide which blocks are free, so that what was
//! lent and has come back leaves no trace.
use crate::mm::buddy;
use crate::mm::buddy::{
    lemma_bytes, lemma_clear_point, lemma_first_exists, lemma_fit_order, lemma_pages_same,
    lemma_source_order, BuddyAllocator, BuddyResult, BuddyStats,
};
use vstd::arithmetic::div_mod::*;
use vstd::arithmetic::power2::*;
use vstd::prelude::*;

verus! {

// ---------------------------------------------------------------------------
// Settled lists
// ---------------------------------------------------------------------------

/// Every block on the free lists is aligned to its size.
#[verifier::opaque]
pub open spec fn all_aligned(lists: Seq<Seq<u64>>, origin: int, page_size: int) -> bool {
    forall|o: int, i: int|
        0 <= o < lists.len() && 0 <= i < lists[o].len() ==> buddy::aligned(
            origin,
            page_size,
            #[trigger] lists[o][i] as int,
            o,
        )
}

/// No two buddies that could be merged are both free.
#[verifier::opaque]
pub open spec fn no_buddies(lists: Seq<Seq<u64>>, origin: int, page_size: int) -> bool {
    forall|o: int, i: int|
        0 <= o < lists.len() - 1 && 0 <= i < lists[o].len() ==> !buddy::holds(
            lists[o],
            buddy::buddy_of(origin, page_size, #[trigger] lists[o][i] as int, o),
        )
}

/// The free blocks are aligned, and merged as far as they can be.
pub open spec fn settled(lists: Seq<Seq<u64>>, origin: int, page_size: int) -> bool {
    all_aligned(lists, origin, page_size) && no_buddies(lists, origin, page_size)
}

/// The free blocks of the allocator are settled.
pub open spec fn is_settled(s: BuddyAllocator) -> bool {
    settled(s.lists(), s.spec_origin() as int, s.page_size())
}

/// The lists hold the same blocks, if not in the same order.
pub open spec fn same_blocks(l1: Seq<Seq<u64>>, l2: Seq<Seq<u64>>) -> bool {
    &&& l1.len() == l2.len()
    &&& forall|o: int| 0 <= o < l1.len() ==> (#[trigger] l1[o]).len() == l2[o].len()
    &&& forall|o: int, x: int|
        0 <= o < l1.len() ==> (#[trigger] buddy::holds(l1[o], x)
            <==> buddy::holds(l2[o], x))
}

// ---------------------------------------------------------------------------
// Alignment
// ---------------------------------------------------------------------------

/// An aligned address lies a whole number of blocks from the origin.
proof fn lemma_aligned_unit(origin: int, page_size: int, a: int, o: int) -> (q: int)
    requires
        page_size > 0,
        o >= 0,
        buddy::aligned(origin, page_size, a, o),
    ensures
        a == origin + q * buddy::block_bytes(page_size, o),
{
    let n = buddy::block_bytes(page_size, o);
    lemma_bytes(page_size, o);
    lemma_mod_equivalence(a, origin, n);
    lemma_fundamental_div_mod(a - origin, n);
    let q = (a - origin) / n;
    assert(n * q == q * n) by (nonlinear_arith);
    q
}

proof fn lemma_unit_aligned(origin: int, page_size: int, a: int, o: int, q: int)
    requires
        page_size > 0,
        o >= 0,
        a == origin + q * buddy::block_bytes(page_size, o),
    ensures
        buddy::aligned(origin, page_size, a, o),
{
    let n = buddy::block_bytes(page_size, o);
    lemma_bytes(page_size, o);
    lemma_mod_multiples_vanish(q, origin, n);
    assert(n * q == q * n) by (nonlinear_arith);
}

/// A block of order `o` is made up of `2^(o - k)` blocks of order `k`.
proof fn lemma_bytes_parts(page_size: int, o: int, k: int)
    requires
        page_size > 0,
        0 <= k <= o,
    ensures
        buddy::block_bytes(page_size, o) == pow2((o - k) as nat)
            * buddy::block_bytes(page_size, k),
{
    lemma_pow2_adds((o - k) as nat, k as nat);
    let m = pow2((o - k) as nat) as int;
    let n = pow2(k as nat) as int;
    assert((m * n) * page_size == m * (n * page_size)) by (nonlinear_arith);
}

/// An address aligned for an order is aligned for the lower ones, and so is the
/// end of each block of a lower order there.
proof fn lemma_aligned_down(origin: int, page_size: int, a: int, o: int, k: int)
    requires
        page_size > 0,
        0 <= k <= o,
        buddy::aligned(origin, page_size, a, o),
    ensures
        buddy::aligned(origin, page_size, a, k),
        buddy::aligned(
            origin,
            page_size,
            a + buddy::block_bytes(page_size, k),
            k,
        ),
        buddy::aligned(
            origin,
            page_size,
            a + buddy::block_bytes(page_size, o),
            k,
        ),
{
    let q = lemma_aligned_unit(origin, page_size, a, o);
    lemma_bytes_parts(page_size, o, k);
    let m = pow2((o - k) as nat) as int;
    let n = buddy::block_bytes(page_size, k);
    assert(q * (m * n) == (q * m) * n) by (nonlinear_arith);
    assert((q * m + 1) * n == (q * m) * n + n) by (nonlinear_arith);
    assert((q * m + m) * n == (q * m) * n + m * n) by (nonlinear_arith);
    lemma_unit_aligned(origin, page_size, a, k, q * m);
    lemma_unit_aligned(origin, page_size, a + n, k, q * m + 1);
    lemma_unit_aligned(origin, page_size, a + m * n, k, q * m + m);
}

/// A block and its buddy are neighbours, each the other's buddy, and the lower of
/// the two is where the block of the next order starts.
proof fn lemma_buddy(origin: int, page_size: int, a: int, o: int)
    requires
        page_size > 0,
        o >= 0,
        buddy::aligned(origin, page_size, a, o),
    ensures
        ({
            let n = buddy::block_bytes(page_size, o);
            let b = buddy::buddy_of(origin, page_size, a, o);
            &&& b == a + n || b == a - n
            &&& buddy::aligned(origin, page_size, b, o)
            &&& buddy::buddy_of(origin, page_size, b, o) == a
            &&& buddy::aligned(
                origin,
                page_size,
                if a <= b {
                    a
                } else {
                    b
                },
                o + 1,
            )
        }),
{
    let n = buddy::block_bytes(page_size, o);
    let b = buddy::buddy_of(origin, page_size, a, o);
    lemma_bytes(page_size, o);
    let q = lemma_aligned_unit(origin, page_size, a, o);
    assert((q + 1) * n == q * n + n) by (nonlinear_arith);
    assert((q - 1) * n == q * n - n) by (nonlinear_arith);
    if buddy::aligned(origin, page_size, a, o + 1) {
        lemma_unit_aligned(origin, page_size, b, o, q + 1);
        if buddy::aligned(origin, page_size, b, o + 1) {
            let q2 = lemma_aligned_unit(origin, page_size, a, o + 1);
            let q3 = lemma_aligned_unit(origin, page_size, b, o + 1);
            assert(q3 * (2 * n) != q2 * (2 * n) + n) by (nonlinear_arith)
                requires
                    n > 0,
            ;
        }
    } else {
        lemma_unit_aligned(origin, page_size, b, o, q - 1);
        let s = q / 2;
        if q % 2 == 0 {
            assert(s * (2 * n) == q * n) by (nonlinear_arith)
                requires
                    q == 2 * s,
            ;
            lemma_unit_aligned(origin, page_size, a, o + 1, s);
        } else {
            assert(s * (2 * n) == (q - 1) * n) by (nonlinear_arith)
                requires
                    q == 2 * s + 1,
            ;
            lemma_unit_aligned(origin, page_size, b, o + 1, s);
        }
    }
}

/// Of two aligned blocks that have a byte in common, the larger contains the
/// smaller.
proof fn lemma_nested(origin: int, page_size: int, x: int, o: int, y: int, k: int)
    requires
        page_size > 0,
        0 <= k <= o,
        buddy::aligned(origin, page_size, x, o),
        buddy::aligned(origin, page_size, y, k),
        y < x + buddy::block_bytes(page_size, o),
        x < y + buddy::block_bytes(page_size, k),
    ensures
        x <= y,
        y + buddy::block_bytes(page_size, k) <= x + buddy::block_bytes(
            page_size,
            o,
        ),
        k == o ==> x == y,
{
    let n = buddy::block_bytes(page_size, k);
    let m = pow2((o - k) as nat) as int;
    lemma_bytes(page_size, k);
    lemma_bytes_parts(page_size, o, k);
    let q = lemma_aligned_unit(origin, page_size, x, o);
    let t = lemma_aligned_unit(origin, page_size, y, k);
    let s = q * m;
    assert(q * (m * n) == (q * m) * n) by (nonlinear_arith);
    assert(t < s + m) by (nonlinear_arith)
        requires
            t * n < s * n + m * n,
            n > 0,
    ;
    assert(s <= t) by (nonlinear_arith)
        requires
            s * n < t * n + n,
            n > 0,
    ;
    assert(s * n <= t * n) by (nonlinear_arith)
        requires
            s <= t,
            n > 0,
    ;
    assert(t * n + n <= s * n + m * n) by (nonlinear_arith)
        requires
            t + 1 <= s + m,
            n > 0,
    ;
}

// ---------------------------------------------------------------------------
// The free bytes decide the blocks
// ---------------------------------------------------------------------------

/// Settled lists that cover all of an aligned block do so with no smaller block:
/// beside a smallest one its buddy would have to be free.
proof fn lemma_whole(
    lists: Seq<Seq<u64>>,
    origin: int,
    page_size: int,
    x: int,
    o: int,
    k: int,
    i: int,
)
    requires
        page_size > 0,
        settled(lists, origin, page_size),
        buddy::disjoint(lists, page_size),
        0 <= k < o < lists.len(),
        0 <= i < lists[k].len(),
        buddy::aligned(origin, page_size, x, o),
        forall|p: int|
            x <= p < x + buddy::block_bytes(page_size, o)
                ==> #[trigger] buddy::covers(lists, page_size, p),
    ensures
        !(x <= lists[k][i] && lists[k][i] + buddy::block_bytes(page_size, k) <= x
            + buddy::block_bytes(page_size, o)),
    decreases k,
{
    if x <= lists[k][i] && lists[k][i] + buddy::block_bytes(page_size, k) <= x
        + buddy::block_bytes(page_size, o) {
        let y = lists[k][i] as int;
        let n = buddy::block_bytes(page_size, k);
        let b = buddy::buddy_of(origin, page_size, y, k);
        let parent = if y <= b {
            y
        } else {
            b
        };
        reveal(all_aligned);
        reveal(no_buddies);
        lemma_bytes(page_size, k);
        lemma_bytes(page_size, o);
        lemma_buddy(origin, page_size, y, k);
        lemma_nested(origin, page_size, x, o, parent, k + 1);
        assert(buddy::covers(lists, page_size, b));
        let (m, j) = lemma_covering(lists, page_size, b);
        let z = lists[m][j] as int;
        lemma_bytes(page_size, m);
        if m == k {
            lemma_nested(origin, page_size, b, k, z, k);
            assert(buddy::holds(lists[k], b));
        } else if m > k {
            lemma_nested(origin, page_size, z, m, parent, k + 1);
            reveal(buddy::disjoint);
            assert(buddy::apart(
                lists[m][j] as int,
                buddy::block_bytes(page_size, m),
                lists[k][i] as int,
                n,
            ));
        } else {
            lemma_nested(origin, page_size, b, k, z, m);
            lemma_whole(lists, origin, page_size, x, o, m, j);
        }
    }
}

/// A block on settled lists is on all settled lists that cover the same bytes.
proof fn lemma_block_shared(
    l1: Seq<Seq<u64>>,
    l2: Seq<Seq<u64>>,
    origin: int,
    page_size: int,
    o: int,
    i: int,
)
    requires
        page_size > 0,
        l1.len() == l2.len(),
        settled(l1, origin, page_size),
        settled(l2, origin, page_size),
        buddy::disjoint(l1, page_size),
        buddy::disjoint(l2, page_size),
        forall|p: int|
            #![trigger buddy::covers(l1, page_size, p)]
            #![trigger buddy::covers(l2, page_size, p)]
            buddy::covers(l1, page_size, p) <==> buddy::covers(
                l2,
                page_size,
                p,
            ),
        0 <= o < l1.len(),
        0 <= i < l1[o].len(),
    ensures
        buddy::holds(l2[o], l1[o][i] as int),
{
    let x = l1[o][i] as int;
    lemma_bytes(page_size, o);
    assert forall|p: int|
        x <= p < x + buddy::block_bytes(
            page_size,
            o,
        ) implies #[trigger] buddy::covers(l2, page_size, p) by {
        reveal(buddy::covers);
        assert(l1[o][i] <= p < l1[o][i] + buddy::block_bytes(page_size, o));
        assert(buddy::covers(l1, page_size, p));
    }
    assert(buddy::covers(l2, page_size, x));
    let (k, j) = lemma_covering(l2, page_size, x);
    let y = l2[k][j] as int;
    lemma_bytes(page_size, k);
    assert(buddy::aligned(origin, page_size, x, o)) by {
        reveal(all_aligned);
    }
    assert(buddy::aligned(origin, page_size, y, k)) by {
        reveal(all_aligned);
    }
    if k == o {
        lemma_nested(origin, page_size, x, o, y, k);
        assert(l2[o][j] == x);
    } else if k < o {
        lemma_nested(origin, page_size, x, o, y, k);
        lemma_whole(l2, origin, page_size, x, o, k, j);
    } else {
        lemma_nested(origin, page_size, y, k, x, o);
        assert forall|p: int|
            y <= p < y + buddy::block_bytes(
                page_size,
                k,
            ) implies #[trigger] buddy::covers(l1, page_size, p) by {
            reveal(buddy::covers);
            assert(l2[k][j] <= p < l2[k][j] + buddy::block_bytes(page_size, k));
            assert(buddy::covers(l2, page_size, p));
        }
        lemma_whole(l1, origin, page_size, y, k, o, i);
    }
}

/// The block that covers a byte.
proof fn lemma_covering(lists: Seq<Seq<u64>>, page_size: int, p: int) -> (r: (int, int))
    requires
        buddy::covers(lists, page_size, p),
    ensures
        0 <= r.0 < lists.len(),
        0 <= r.1 < lists[r.0].len(),
        lists[r.0][r.1] <= p < lists[r.0][r.1] + buddy::block_bytes(page_size, r.0),
{
    reveal(buddy::covers);
    choose|o: int, i: int|
        0 <= o < lists.len() && 0 <= i < lists[o].len() && #[trigger] lists[o][i] <= p
            < lists[o][i] + buddy::block_bytes(page_size, o)
}

/// No block is on its list twice.
proof fn lemma_no_duplicates(lists: Seq<Seq<u64>>, page_size: int, o: int)
    requires
        page_size > 0,
        buddy::disjoint(lists, page_size),
        0 <= o < lists.len(),
    ensures
        lists[o].no_duplicates(),
{
    reveal(buddy::disjoint);
    lemma_bytes(page_size, o);
    assert forall|i: int, j: int|
        0 <= i < lists[o].len() && 0 <= j < lists[o].len() && i != j implies lists[o][i]
        != lists[o][j] by {
        assert(buddy::apart(
            lists[o][i] as int,
            buddy::block_bytes(page_size, o),
            lists[o][j] as int,
            buddy::block_bytes(page_size, o),
        ));
    }
}

/// Settled lists that cover the same bytes hold the same blocks.
proof fn lemma_same_blocks(l1: Seq<Seq<u64>>, l2: Seq<Seq<u64>>, origin: int, page_size: int)
    requires
        page_size > 0,
        l1.len() == l2.len(),
        settled(l1, origin, page_size),
        settled(l2, origin, page_size),
        buddy::disjoint(l1, page_size),
        buddy::disjoint(l2, page_size),
        forall|p: int|
            #![trigger buddy::covers(l1, page_size, p)]
            #![trigger buddy::covers(l2, page_size, p)]
            buddy::covers(l1, page_size, p) <==> buddy::covers(
                l2,
                page_size,
                p,
            ),
    ensures
        same_blocks(l1, l2),
{
    assert forall|o: int, x: int| 0 <= o < l1.len() implies (
    #[trigger] buddy::holds(l1[o], x) <==> buddy::holds(l2[o], x)) by {
        if buddy::holds(l1[o], x) {
            let i = choose|i: int| 0 <= i < l1[o].len() && #[trigger] l1[o][i] == x;
            lemma_block_shared(l1, l2, origin, page_size, o, i);
        }
        if buddy::holds(l2[o], x) {
            let i = choose|i: int| 0 <= i < l2[o].len() && #[trigger] l2[o][i] == x;
            lemma_block_shared(l2, l1, origin, page_size, o, i);
        }
    }
    assert forall|o: int| 0 <= o < l1.len() implies (#[trigger] l1[o]).len() == l2[o].len() by {
        lemma_no_duplicates(l1, page_size, o);
        lemma_no_duplicates(l2, page_size, o);
        assert forall|x: u64| l1[o].to_set().contains(x) <==> l2[o].to_set().contains(x) by {
            assert(buddy::holds(l1[o], x as int) <==> buddy::holds(
                l2[o],
                x as int,
            ));
            if l1[o].contains(x) {
                let i = choose|i: int| 0 <= i < l1[o].len() && l1[o][i] == x;
                assert(l1[o][i] == x);
            }
            if l2[o].contains(x) {
                let i = choose|i: int| 0 <= i < l2[o].len() && l2[o][i] == x;
                assert(l2[o][i] == x);
            }
        }
        assert(l1[o].to_set() =~= l2[o].to_set());
        l1[o].unique_seq_to_set();
        l2[o].unique_seq_to_set();
    }
}

// ---------------------------------------------------------------------------
// Splitting, merging and cutting keep the lists settled
// ---------------------------------------------------------------------------

proof fn lemma_settled_put(
    lists: Seq<Seq<u64>>,
    origin: int,
    page_size: int,
    o: int,
    a: u64,
)
    requires
        page_size > 0,
        0 <= o < lists.len(),
        settled(lists, origin, page_size),
        buddy::aligned(origin, page_size, a as int, o),
        o < lists.len() - 1 ==> !buddy::holds(
            lists[o],
            buddy::buddy_of(origin, page_size, a as int, o),
        ),
    ensures
        settled(buddy::put(lists, o, a), origin, page_size),
{
    reveal(all_aligned);
    reveal(no_buddies);
    let l2 = buddy::put(lists, o, a);
    let last = lists[o].len() as int;
    lemma_bytes(page_size, o);
    lemma_buddy(origin, page_size, a as int, o);
    assert forall|k: int, i: int|
        0 <= k < l2.len() && 0 <= i < l2[k].len() implies buddy::aligned(
        origin,
        page_size,
        #[trigger] l2[k][i] as int,
        k,
    ) by {
        if k != o || i < last {
            assert(l2[k][i] == lists[k][i]);
        }
    }
    assert forall|k: int, i: int|
        0 <= k < l2.len() - 1 && 0 <= i < l2[k].len() implies !buddy::holds(
        l2[k],
        buddy::buddy_of(origin, page_size, #[trigger] l2[k][i] as int, k),
    ) by {
        let x = l2[k][i] as int;
        let b = buddy::buddy_of(origin, page_size, x, k);
        if buddy::holds(l2[k], b) {
            let j = choose|j: int| 0 <= j < l2[k].len() && #[trigger] l2[k][j] == b;
            if k != o {
                assert(lists[k][i] == x && lists[k][j] == b);
                assert(buddy::holds(lists[k], b));
            } else if i < last && j < last {
                assert(lists[k][i] == x && lists[k][j] == b);
                assert(buddy::holds(lists[k], b));
            } else if i < last {
                assert(lists[k][i] == x);
                lemma_buddy(origin, page_size, x, k);
                assert(buddy::holds(lists[o], x));
            } else if j < last {
                assert(lists[k][j] == b);
                assert(buddy::holds(lists[o], b));
            }
        }
    }
}

proof fn lemma_settled_take_out(
    lists: Seq<Seq<u64>>,
    origin: int,
    page_size: int,
    o: int,
    at: int,
)
    requires
        0 <= o < lists.len(),
        0 <= at < lists[o].len(),
        settled(lists, origin, page_size),
    ensures
        settled(buddy::take_out(lists, o, at), origin, page_size),
{
    reveal(all_aligned);
    reveal(no_buddies);
    let l2 = buddy::take_out(lists, o, at);
    let last = lists[o].len() - 1;
    assert forall|k: int, i: int|
        0 <= k < l2.len() && 0 <= i < l2[k].len() implies buddy::aligned(
        origin,
        page_size,
        #[trigger] l2[k][i] as int,
        k,
    ) by {
        let j = if k == o && i == at {
            last
        } else {
            i
        };
        assert(l2[k][i] == lists[k][j]);
    }
    assert forall|k: int, i: int|
        0 <= k < l2.len() - 1 && 0 <= i < l2[k].len() implies !buddy::holds(
        l2[k],
        buddy::buddy_of(origin, page_size, #[trigger] l2[k][i] as int, k),
    ) by {
        let j = if k == o && i == at {
            last
        } else {
            i
        };
        assert(l2[k][i] == lists[k][j]);
        let b = buddy::buddy_of(origin, page_size, l2[k][i] as int, k);
        if buddy::holds(l2[k], b) {
            let h = choose|h: int| 0 <= h < l2[k].len() && #[trigger] l2[k][h] == b;
            let g = if k == o && h == at {
                last
            } else {
                h
            };
            assert(lists[k][g] == b);
            assert(buddy::holds(lists[k], b));
        }
    }
}

/// Merging a block into the lists keeps them settled.
proof fn lemma_settled_merged(
    lists: Seq<Seq<u64>>,
    origin: int,
    page_size: int,
    a: int,
    o: int,
)
    requires
        page_size > 0,
        0 <= o < lists.len(),
        0 <= a <= u64::MAX,
        settled(lists, origin, page_size),
        buddy::aligned(origin, page_size, a, o),
    ensures
        settled(buddy::merged(lists, origin, page_size, a, o), origin, page_size),
    decreases lists.len() - o,
{
    let b = buddy::buddy_of(origin, page_size, a, o);
    if o < lists.len() - 1 && buddy::holds(lists[o], b) {
        lemma_first_exists(lists[o], b);
        let i = buddy::first_pos(lists[o], b);
        lemma_settled_take_out(lists, origin, page_size, o, i);
        lemma_buddy(origin, page_size, a, o);
        let low = if a <= b {
            a
        } else {
            b
        };
        lemma_settled_merged(
            buddy::take_out(lists, o, i),
            origin,
            page_size,
            low,
            o + 1,
        );
    } else {
        lemma_settled_put(lists, origin, page_size, o, a as u64);
    }
}

/// Splitting the last block of the lowest list that serves keeps the lists settled,
/// and what is handed out is aligned.
proof fn lemma_settled_split(
    lists: Seq<Seq<u64>>,
    origin: int,
    page_size: int,
    from: int,
    to: int,
)
    requires
        page_size > 0,
        0 <= to <= from < lists.len(),
        lists[from].len() > 0,
        forall|k: int| to <= k < from ==> (#[trigger] lists[k]).len() == 0,
        buddy::in_space(lists, page_size),
        settled(lists, origin, page_size),
    ensures
        settled(buddy::split(lists, page_size, from, to), origin, page_size),
        buddy::aligned(origin, page_size, lists[from].last() as int, to),
{
    reveal(all_aligned);
    reveal(no_buddies);
    let l2 = buddy::split(lists, page_size, from, to);
    let top = lists[from].len() - 1;
    let a = lists[from][top];
    assert(buddy::aligned(origin, page_size, a as int, from));
    assert(a + buddy::block_bytes(page_size, from) <= u64::MAX + 1) by {
        reveal(buddy::in_space);
        assert(lists[from][top] + buddy::block_bytes(page_size, from) <= u64::MAX + 1);
    }
    lemma_aligned_down(origin, page_size, a as int, from, to);
    assert forall|k: int| to <= k < from implies #[trigger] l2[k] == seq![
        (a + buddy::block_bytes(page_size, k)) as u64,
    ] && a + buddy::block_bytes(page_size, k) <= u64::MAX && buddy::aligned(
        origin,
        page_size,
        a + buddy::block_bytes(page_size, k),
        k,
    ) by {
        lemma_bytes(page_size, k);
        buddy::lemma_bytes_mono(page_size, k + 1, from);
        lemma_aligned_down(origin, page_size, a as int, from, k);
        assert(lists[k].len() == 0);
        assert(l2[k] =~= seq![(a + buddy::block_bytes(page_size, k)) as u64]);
    }
    assert forall|k: int, i: int|
        0 <= k < l2.len() && 0 <= i < l2[k].len() implies buddy::aligned(
        origin,
        page_size,
        #[trigger] l2[k][i] as int,
        k,
    ) by {
        if !(to <= k < from) {
            assert(l2[k][i] == lists[k][i]);
        }
    }
    assert forall|k: int, i: int|
        0 <= k < l2.len() - 1 && 0 <= i < l2[k].len() implies !buddy::holds(
        l2[k],
        buddy::buddy_of(origin, page_size, #[trigger] l2[k][i] as int, k),
    ) by {
        let b = buddy::buddy_of(origin, page_size, l2[k][i] as int, k);
        lemma_bytes(page_size, k);
        if buddy::holds(l2[k], b) {
            let h = choose|h: int| 0 <= h < l2[k].len() && #[trigger] l2[k][h] == b;
            if !(to <= k < from) {
                assert(l2[k][i] == lists[k][i]);
                assert(lists[k][h] == b);
                assert(buddy::holds(lists[k], b));
            }
        }
    }
}

/// No larger block than that of the order that fits would do.
proof fn lemma_fit_order_top(origin: int, page_size: int, a: int, rem: int, o: int)
    requires
        o >= 0,
    ensures
        ({
            let f = buddy::fit_order(origin, page_size, a, rem, o);
            &&& f > 0 ==> buddy::aligned(origin, page_size, a, f)
            &&& f < o ==> !(pow2((f + 1) as nat) <= rem && buddy::aligned(
                origin,
                page_size,
                a,
                f + 1,
            ))
        }),
    decreases o,
{
    if o > 0 && !(pow2(o as nat) <= rem && buddy::aligned(origin, page_size, a, o)) {
        lemma_fit_order_top(origin, page_size, a, rem, o - 1);
    }
}

/// The lists as they are while a region is cut up, with `rem` pages to go from `a`
/// on: all blocks lie below, and one that ends at `a` would have been cut larger if
/// it could have been.
#[verifier::opaque]
spec fn cut_up_to(
    lists: Seq<Seq<u64>>,
    origin: int,
    page_size: int,
    a: int,
    rem: int,
) -> bool {
    forall|o: int, i: int|
        0 <= o < lists.len() && 0 <= i < lists[o].len() ==> {
            let end = #[trigger] lists[o][i] + buddy::block_bytes(page_size, o);
            &&& end <= a
            &&& o < lists.len() - 1 && end == a && buddy::aligned(
                origin,
                page_size,
                lists[o][i] as int,
                o + 1,
            ) ==> rem < pow2(o as nat)
        }
}

/// Cutting a region into blocks leaves settled lists.
proof fn lemma_settled_carved(
    lists: Seq<Seq<u64>>,
    origin: int,
    page_size: int,
    a: int,
    rem: int,
)
    requires
        page_size > 0,
        lists.len() > 0,
        0 <= rem,
        0 <= a,
        a + rem * page_size <= u64::MAX,
        buddy::aligned(origin, page_size, a, 0),
        settled(lists, origin, page_size),
        cut_up_to(lists, origin, page_size, a, rem),
    ensures
        settled(buddy::carved(lists, origin, page_size, a, rem), origin, page_size),
    decreases rem,
{
    let top = lists.len() - 1;
    if rem > 0 {
        let o = buddy::fit_order(origin, page_size, a, rem, top);
        let n = buddy::block_bytes(page_size, o);
        let size = pow2(o as nat) as int;
        lemma_fit_order(origin, page_size, a, rem, top);
        lemma_fit_order_top(origin, page_size, a, rem, top);
        lemma_bytes(page_size, o);
        lemma_buddy(origin, page_size, a, o);
        assert(size * page_size <= rem * page_size) by (nonlinear_arith)
            requires
                size <= rem,
                page_size > 0,
        ;
        assert((rem - size) * page_size == rem * page_size - size * page_size)
            by (nonlinear_arith);
        let b = buddy::buddy_of(origin, page_size, a, o);
        if o < top && buddy::holds(lists[o], b) {
            reveal(cut_up_to);
            let i = choose|i: int| 0 <= i < lists[o].len() && #[trigger] lists[o][i] == b;
            assert(lists[o][i] + n <= a);
            assert(buddy::aligned(origin, page_size, lists[o][i] as int, o + 1));
        }
        lemma_settled_put(lists, origin, page_size, o, a as u64);
        let l2 = buddy::put(lists, o, a as u64);
        assert(cut_up_to(l2, origin, page_size, a + n, rem - size)) by {
            reveal(cut_up_to);
            assert forall|k: int, i: int| 0 <= k < l2.len() && 0 <= i < l2[k].len() implies {
                let end = #[trigger] l2[k][i] + buddy::block_bytes(page_size, k);
                &&& end <= a + n
                &&& k < l2.len() - 1 && end == a + n && buddy::aligned(
                    origin,
                    page_size,
                    l2[k][i] as int,
                    k + 1,
                ) ==> rem - size < pow2(k as nat)
            } by {
                if k != o || i < lists[o].len() {
                    assert(l2[k][i] == lists[k][i]);
                }
            }
        }
        lemma_aligned_down(origin, page_size, a, o, 0);
        lemma_settled_carved(l2, origin, page_size, a + n, rem - size);
    }
}

// ---------------------------------------------------------------------------
// Laws
// ---------------------------------------------------------------------------

/// The first region of a new allocator is cut into settled blocks.
pub proof fn law_first_region_is_settled(
    s0: BuddyAllocator,
    s1: BuddyAllocator,
    base: u64,
    pages: usize,
)
    requires
        s0.wf(),
        s0.lists() == Seq::new(
            s0.spec_config().max_order as nat,
            |o: int| Seq::<u64>::empty(),
        ),
        s0.spec_total_pages() == 0,
        base + pages * s0.page_size() <= u64::MAX,
        buddy::region_outcome(s0, s1, base, pages),
    ensures
        is_settled(s1),
        s1.no_overlap(),
        s1.spec_origin() == base,
{
    let l = s0.lists();
    let psz = s0.page_size();
    reveal(all_aligned);
    reveal(no_buddies);
    reveal(cut_up_to);
    reveal(buddy::disjoint);
    reveal(buddy::clear_of);
    lemma_settled_carved(l, base as int, psz, base as int, pages as int);
}

/// Allocating from settled blocks leaves settled blocks, and hands out an aligned
/// one.
pub proof fn law_allocating_keeps_settled(
    s0: BuddyAllocator,
    s1: BuddyAllocator,
    order: usize,
    r: BuddyResult<u64>,
)
    requires
        s0.wf(),
        is_settled(s0),
        buddy::alloc_outcome(s0, s1, order, r),
    ensures
        is_settled(s1),
        r matches Ok(a) ==> order < s0.spec_config().max_order && buddy::aligned(
            s0.spec_origin() as int,
            s0.page_size(),
            a as int,
            order as int,
        ),
{
    let l = s0.lists();
    if order < s0.spec_config().max_order {
        let from = buddy::source_order(l, order as int);
        lemma_source_order(l, order as int);
        if from < l.len() {
            lemma_settled_split(
                l,
                s0.spec_origin() as int,
                s0.page_size(),
                from,
                order as int,
            );
        }
    }
}

/// Freeing an aligned block into settled ones leaves settled blocks.
pub proof fn law_freeing_keeps_settled(
    s0: BuddyAllocator,
    s1: BuddyAllocator,
    addr: u64,
    order: usize,
    r: BuddyResult<()>,
)
    requires
        s0.wf(),
        is_settled(s0),
        buddy::aligned(
            s0.spec_origin() as int,
            s0.page_size(),
            addr as int,
            order as int,
        ),
        buddy::free_outcome(s0, s1, addr, order, r),
    ensures
        is_settled(s1),
{
    if r is Ok {
        lemma_settled_merged(
            s0.lists(),
            s0.spec_origin() as int,
            s0.page_size(),
            addr as int,
            order as int,
        );
    }
}

/// Two settled states of one memory in which the same bytes are free have the same
/// free blocks and the same statistics.
pub proof fn law_free_bytes_decide_blocks(
    s: BuddyAllocator,
    t: BuddyAllocator,
    before: BuddyStats,
    after: BuddyStats,
)
    requires
        s.wf(),
        t.wf(),
        buddy::same_memory(s, t),
        s.no_overlap(),
        t.no_overlap(),
        is_settled(s),
        is_settled(t),
        forall|p: int|
            #![trigger buddy::covers(s.lists(), s.page_size(), p)]
            #![trigger buddy::covers(t.lists(), s.page_size(), p)]
            buddy::covers(s.lists(), s.page_size(), p) <==> buddy::covers(
                t.lists(),
                s.page_size(),
                p,
            ),
        buddy::stats_of(s, before),
        buddy::stats_of(t, after),
    ensures
        same_blocks(s.lists(), t.lists()),
        t.spec_free_pages() == s.spec_free_pages(),
        after == before,
{
    let n = s.lists().len() as int;
    lemma_same_blocks(s.lists(), t.lists(), s.spec_origin() as int, s.page_size());
    lemma_pages_same(s.lists(), t.lists(), n);
    lemma_nonempty_same(s.lists(), t.lists(), n);
    let (l1, l2) = (s.lists(), t.lists());
    assert(forall|k: int| 0 <= k < n ==> (#[trigger] l1[k]).len() == l2[k].len());
    assert(forall|k: int| 0 <= k < n ==> (#[trigger] l2[k]).len() == l1[k].len());
    match (before.largest_free_order, after.largest_free_order) {
        (Some(a), Some(b)) => {
            assert(l1[a as int].len() == l2[a as int].len());
            assert(l1[b as int].len() == l2[b as int].len());
        },
        (Some(a), None) => {
            assert(l1[a as int].len() == l2[a as int].len());
        },
        (None, Some(b)) => {
            assert(l1[b as int].len() == l2[b as int].len());
        },
        (None, None) => {},
    }
}

proof fn lemma_nonempty_same(l1: Seq<Seq<u64>>, l2: Seq<Seq<u64>>, n: int)
    requires
        0 <= n <= l1.len(),
        n <= l2.len(),
        forall|o: int| 0 <= o < n ==> (#[trigger] l1[o]).len() == l2[o].len(),
    ensures
        buddy::nonempty_lists(l1, n) == buddy::nonempty_lists(l2, n),
    decreases n,
{
    if n > 0 {
        lemma_nonempty_same(l1, l2, n - 1);
        assert(l1[n - 1].len() == l2[n - 1].len());
    }
}

// ---------------------------------------------------------------------------
// Blocks on loan
// ---------------------------------------------------------------------------

/// A block that was allocated and is not free again yet.
#[derive(Debug, Clone, Copy)]
pub struct Loan {
    pub addr: u64,
    pub order: usize,
}

impl Loan {
    pub open spec fn bytes(self, page_size: int) -> int {
        buddy::block_bytes(page_size, self.order as int)
    }

    /// Byte `p` is in the block.
    pub open spec fn contains(self, page_size: int, p: int) -> bool {
        self.addr <= p < self.addr + self.bytes(page_size)
    }
}

/// Byte `p` is on loan.
pub open spec fn lent(loans: Seq<Loan>, page_size: int, p: int) -> bool {
    exists|i: int| 0 <= i < loans.len() && (#[trigger] loans[i]).contains(page_size, p)
}

/// What is free in `s` and what is on loan add up to what was free in `s0`, and no
/// byte is in two of these blocks.
pub open spec fn accounts(s0: BuddyAllocator, s: BuddyAllocator, loans: Seq<Loan>) -> bool {
    let psz = s0.page_size();
    &&& buddy::same_memory(s0, s)
    &&& forall|i: int|
        0 <= i < loans.len() ==> (#[trigger] loans[i]).order < s0.spec_config().max_order
            && buddy::aligned(
            s0.spec_origin() as int,
            psz,
            loans[i].addr as int,
            loans[i].order as int,
        ) && buddy::clear_of(s.lists(), psz, loans[i].addr as int, loans[i].bytes(psz))
    &&& forall|i: int, j: int|
        0 <= i < j < loans.len() ==> buddy::apart(
            (#[trigger] loans[i]).addr as int,
            loans[i].bytes(psz),
            (#[trigger] loans[j]).addr as int,
            loans[j].bytes(psz),
        )
    &&& forall|p: int|
        #![trigger buddy::covers(s0.lists(), psz, p)]
        #![trigger buddy::covers(s.lists(), psz, p)]
        #![trigger lent(loans, psz, p)]
        buddy::covers(s0.lists(), psz, p) <==> buddy::covers(s.lists(), psz, p) || lent(
            loans,
            psz,
            p,
        )
}

/// A range without a covered byte is clear of the lists.
proof fn lemma_uncovered_is_clear(lists: Seq<Seq<u64>>, page_size: int, a: int, n: int)
    requires
        page_size > 0,
        n > 0,
        forall|p: int| a <= p < a + n ==> !#[trigger] buddy::covers(lists, page_size, p),
    ensures
        buddy::clear_of(lists, page_size, a, n),
{
    reveal(buddy::clear_of);
    assert forall|o: int, i: int|
        0 <= o < lists.len() && 0 <= i < lists[o].len() implies buddy::apart(
        a,
        n,
        #[trigger] lists[o][i] as int,
        buddy::block_bytes(page_size, o),
    ) by {
        let b = lists[o][i] as int;
        lemma_bytes(page_size, o);
        if !buddy::apart(a, n, b, buddy::block_bytes(page_size, o)) {
            let p = if a <= b {
                b
            } else {
                a
            };
            assert(buddy::covers(lists, page_size, p)) by {
                reveal(buddy::covers);
                assert(lists[o][i] <= p < lists[o][i] + buddy::block_bytes(page_size, o));
            }
        }
    }
}

/// Nothing is on loan at the start.
pub proof fn law_nothing_lent_at_first(s: BuddyAllocator)
    ensures
        accounts(s, s, Seq::empty()),
{
}

/// What is allocated goes on loan: it meets no other block on loan and no free one,
/// and the accounts stay balanced.
pub proof fn law_allocated_is_lent(
    s0: BuddyAllocator,
    s: BuddyAllocator,
    t: BuddyAllocator,
    loans: Seq<Loan>,
    order: usize,
    a: u64,
)
    requires
        s.wf(),
        s.no_overlap(),
        is_settled(s),
        accounts(s0, s, loans),
        buddy::alloc_outcome(s, t, order, Ok(a)),
    ensures
        t.no_overlap(),
        is_settled(t),
        accounts(s0, t, loans.push(Loan { addr: a, order })),
{
    let psz = s0.page_size();
    let new = Loan { addr: a, order };
    let n = new.bytes(psz);
    let all = loans.push(new);
    lemma_bytes(psz, order as int);
    law_allocating_keeps_settled(s, t, order, Ok(a));
    assert forall|p: int|
        #![trigger buddy::covers(s0.lists(), psz, p)]
        #![trigger buddy::covers(t.lists(), psz, p)]
        #![trigger lent(all, psz, p)]
        buddy::covers(s0.lists(), psz, p) <==> buddy::covers(t.lists(), psz, p) || lent(
            all,
            psz,
            p,
        ) by {
        assert(buddy::covers(s.lists(), psz, p) <==> buddy::covers(t.lists(), psz, p) || a <= p
            < a + n);
        if lent(loans, psz, p) {
            let i = choose|i: int|
                0 <= i < loans.len() && (#[trigger] loans[i]).contains(psz, p);
            assert(all[i].contains(psz, p));
        }
        if a <= p < a + n {
            assert(all[loans.len() as int].contains(psz, p));
        }
        if lent(all, psz, p) {
            let i = choose|i: int| 0 <= i < all.len() && (#[trigger] all[i]).contains(psz, p);
            if i < loans.len() {
                assert(loans[i].contains(psz, p));
            }
        }
    }
    assert forall|i: int| 0 <= i < all.len() implies (#[trigger] all[i]).order
        < s0.spec_config().max_order && buddy::aligned(
        s0.spec_origin() as int,
        psz,
        all[i].addr as int,
        all[i].order as int,
    ) && buddy::clear_of(t.lists(), psz, all[i].addr as int, all[i].bytes(psz)) by {
        if i < loans.len() {
            let l = loans[i];
            lemma_bytes(psz, l.order as int);
            assert forall|p: int| l.addr <= p < l.addr + l.bytes(psz) implies !(
            #[trigger] buddy::covers(t.lists(), psz, p)) by {
                lemma_clear_point(s.lists(), psz, l.addr as int, l.bytes(psz), p);
            }
            lemma_uncovered_is_clear(t.lists(), psz, l.addr as int, l.bytes(psz));
        }
    }
    assert forall|i: int, j: int| 0 <= i < j < all.len() implies buddy::apart(
        (#[trigger] all[i]).addr as int,
        all[i].bytes(psz),
        (#[trigger] all[j]).addr as int,
        all[j].bytes(psz),
    ) by {
        let l = loans[i];
        assert(all[i] == l);
        lemma_bytes(psz, l.order as int);
        if j == loans.len() && !buddy::apart(l.addr as int, l.bytes(psz), a as int, n) {
            let p = if l.addr <= a {
                a as int
            } else {
                l.addr as int
            };
            lemma_clear_point(s.lists(), psz, l.addr as int, l.bytes(psz), p);
            assert(buddy::covers(s.lists(), psz, p));
        }
    }
}

/// In a memory that starts at a multiple of the page size, any block on loan can be
/// freed, and the accounts stay balanced.
pub proof fn law_lent_is_freed(
    s0: BuddyAllocator,
    s: BuddyAllocator,
    t: BuddyAllocator,
    loans: Seq<Loan>,
    at: int,
    r: BuddyResult<()>,
)
    requires
        s.wf(),
        s.no_overlap(),
        is_settled(s),
        s.spec_origin() as int % s.page_size() == 0,
        accounts(s0, s, loans),
        0 <= at < loans.len(),
        buddy::free_outcome(s, t, loans[at].addr, loans[at].order, r),
    ensures
        r is Ok,
        t.no_overlap(),
        is_settled(t),
        accounts(s0, t, loans.remove(at)),
{
    let psz = s0.page_size();
    let gone = loans[at];
    let rest = loans.remove(at);
    let origin = s0.spec_origin() as int;
    lemma_bytes(psz, gone.order as int);
    assert(gone.addr as int % psz == 0) by {
        lemma_aligned_down(origin, psz, gone.addr as int, gone.order as int, 0);
        lemma2_to64();
        assert(pow2(0) == 1);
        assert(1 * psz == psz);
    }
    law_freeing_keeps_settled(s, t, gone.addr, gone.order, r);
    assert forall|i: int| 0 <= i < rest.len() implies (#[trigger] rest[i]) == loans[if i < at {
        i
    } else {
        i + 1
    }] by {}
    assert forall|p: int|
        #![trigger buddy::covers(s0.lists(), psz, p)]
        #![trigger buddy::covers(t.lists(), psz, p)]
        #![trigger lent(rest, psz, p)]
        buddy::covers(s0.lists(), psz, p) <==> buddy::covers(t.lists(), psz, p) || lent(
            rest,
            psz,
            p,
        ) by {
        assert(buddy::covers(t.lists(), psz, p) <==> buddy::covers(s.lists(), psz, p)
            || gone.contains(psz, p));
        assert(buddy::covers(s0.lists(), psz, p) <==> buddy::covers(s.lists(), psz, p) || lent(
            loans,
            psz,
            p,
        ));
        if lent(loans, psz, p) && !gone.contains(psz, p) {
            let i = choose|i: int|
                0 <= i < loans.len() && (#[trigger] loans[i]).contains(psz, p);
            let j = if i < at {
                i
            } else {
                i - 1
            };
            assert(rest[j].contains(psz, p));
        }
        if lent(rest, psz, p) {
            let i = choose|i: int| 0 <= i < rest.len() && (#[trigger] rest[i]).contains(psz, p);
            let j = if i < at {
                i
            } else {
                i + 1
            };
            assert(loans[j].contains(psz, p));
        }
    }
    assert forall|i: int| 0 <= i < rest.len() implies (#[trigger] rest[i]).order
        < s0.spec_config().max_order && buddy::aligned(
        origin,
        psz,
        rest[i].addr as int,
        rest[i].order as int,
    ) && buddy::clear_of(t.lists(), psz, rest[i].addr as int, rest[i].bytes(psz)) by {
        let l = rest[i];
        let j = if i < at {
            i
        } else {
            i + 1
        };
        assert(l == loans[j]);
        lemma_bytes(psz, l.order as int);
        assert(buddy::apart(
            l.addr as int,
            l.bytes(psz),
            gone.addr as int,
            gone.bytes(psz),
        )) by {
            if j < at {
                assert(buddy::apart(
                    loans[j].addr as int,
                    loans[j].bytes(psz),
                    loans[at].addr as int,
                    loans[at].bytes(psz),
                ));
            } else {
                assert(buddy::apart(
                    loans[at].addr as int,
                    loans[at].bytes(psz),
                    loans[j].addr as int,
                    loans[j].bytes(psz),
                ));
            }
        }
        assert forall|p: int| l.addr <= p < l.addr + l.bytes(psz) implies !(
        #[trigger] buddy::covers(t.lists(), psz, p)) by {
            lemma_clear_point(s.lists(), psz, l.addr as int, l.bytes(psz), p);
        }
        lemma_uncovered_is_clear(t.lists(), psz, l.addr as int, l.bytes(psz));
    }
}

/// Once everything that was allocated has been freed, in whatever order, the same
/// blocks are free as at the start, and the statistics are the same.
pub proof fn law_all_freed_restores_blocks(
    s0: BuddyAllocator,
    s: BuddyAllocator,
    before: BuddyStats,
    after: BuddyStats,
)
    requires
        s0.wf(),
        s.wf(),
        s0.no_overlap(),
        s.no_overlap(),
        is_settled(s0),
        is_settled(s),
        accounts(s0, s, Seq::empty()),
        buddy::stats_of(s0, before),
        buddy::stats_of(s, after),
    ensures
        same_blocks(s0.lists(), s.lists()),
        after == before,
{
    assert(forall|p: int| !lent(Seq::empty(), s0.page_size(), p));
    law_free_bytes_decide_blocks(s0, s, before, after);
}

/// Freeing what was just allocated leaves the blocks and the statistics as they
/// were before.
pub proof fn law_free_restores_blocks(
    s0: BuddyAllocator,
    s1: BuddyAllocator,
    s2: BuddyAllocator,
    order: usize,
    a: u64,
    freed: BuddyResult<()>,
    before: BuddyStats,
    after: BuddyStats,
)
    requires
        s0.wf(),
        s1.wf(),
        s2.wf(),
        s0.no_overlap(),
        is_settled(s0),
        s0.spec_origin() as int % s0.page_size() == 0,
        buddy::alloc_outcome(s0, s1, order, Ok(a)),
        buddy::free_outcome(s1, s2, a, order, freed),
        buddy::stats_of(s0, before),
        buddy::stats_of(s2, after),
    ensures
        freed is Ok,
        same_blocks(s0.lists(), s2.lists()),
        after == before,
{
    let none = Seq::<Loan>::empty();
    let one = none.push(Loan { addr: a, order });
    law_nothing_lent_at_first(s0);
    law_allocated_is_lent(s0, s0, s1, none, order, a);
    law_lent_is_freed(s0, s1, s2, one, 0, freed);
    assert(one.remove(0) =~= none);
    law_all_freed_restores_blocks(s0, s2, before, after);
}

} // verus!
