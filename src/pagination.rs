//! Page arithmetic for paginated lists: how many pages a list takes and which
//! slice of the list each page shows.

use vstd::arithmetic::div_mod::*;
use vstd::arithmetic::mul::*;
use vstd::prelude::*;

verus! {

/// Number of pages for `n` items at `size` items per page; an empty list
/// still has one (empty) page.
pub open spec fn page_count_spec(n: nat, size: nat) -> nat {
    if n == 0 {
        1
    } else if n % size == 0 {
        n / size
    } else {
        n / size + 1
    }
}

/// One page of a paginated list: its 1-based number, the number of pages,
/// its neighbours, and the half-open range `start..end` of list positions
/// that it shows.
#[derive(Clone, Copy, Debug, PartialEq, Eq, Structural)]
pub struct PageInfo {
    pub page: usize,
    pub page_max: usize,
    pub previous: Option<usize>,
    pub next: Option<usize>,
    pub start: usize,
    pub end: usize,
}

pub open spec fn min_int(a: int, b: int) -> int {
    if a <= b { a } else { b }
}

/// `p` is page `k` (0-based) of a list of `n` items at `size` per page.
pub open spec fn is_page(p: PageInfo, n: nat, size: nat, k: nat) -> bool {
    let count = page_count_spec(n, size);
    &&& p.page == k + 1
    &&& p.page_max == count
    &&& p.previous == (if k == 0 { None } else { Some(k as usize) })
    &&& p.next == (if k + 1 < count { Some((k + 2) as usize) } else { None })
    &&& p.start == k * size
    &&& p.end == min_int(((k + 1) * size) as int, n as int)
    &&& p.start <= p.end <= n
}

/// The page count lies between the two multiples of `size` around `n`.
pub proof fn lemma_page_count_bounds(n: nat, size: nat)
    requires
        size > 0,
    ensures
        n == 0 ==> page_count_spec(n, size) == 1,
        n > 0 ==> (page_count_spec(n, size) - 1) * size < n <= page_count_spec(n, size) * size,
        page_count_spec(n, size) >= 1,
        page_count_spec(n, size) <= n + 1,
{
    if n > 0 {
        lemma_fundamental_div_mod(n as int, size as int);
        let q = n / size;
        let r = n % size;
        assert(n == size * q + r);
        assert(0 <= r < size) by {
            lemma_mod_bound(n as int, size as int);
        }
        if r == 0 {
            assert(q >= 1) by (nonlinear_arith)
                requires n == size * q + r, r == 0, n > 0, q >= 0;
            assert((q - 1) * size < n <= q * size) by (nonlinear_arith)
                requires n == size * q + r, r == 0, size > 0;
            assert(q <= n) by (nonlinear_arith)
                requires n == size * q + r, r == 0, size > 0, q >= 0;
        } else {
            assert(q * size < n <= (q + 1) * size) by (nonlinear_arith)
                requires n == size * q + r, 0 < r < size;
            assert(q + 1 <= n) by (nonlinear_arith)
                requires n == size * q + r, 0 < r < size, q >= 0;
        }
    }
}

/// Number of pages for `n_items` items at `per_page` items per page.
pub fn page_count(n_items: usize, per_page: usize) -> (r: usize)
    requires
        per_page > 0,
    ensures
        r == page_count_spec(n_items as nat, per_page as nat),
{
    proof {
        lemma_page_count_bounds(n_items as nat, per_page as nat);
    }
    if n_items == 0 {
        1
    } else if n_items % per_page == 0 {
        n_items / per_page
    } else {
        proof {
            let q = n_items as int / per_page as int;
            lemma_fundamental_div_mod(n_items as int, per_page as int);
            lemma_mod_bound(n_items as int, per_page as int);
            assert(q < n_items) by (nonlinear_arith)
                requires n_items == per_page * q + n_items % per_page, n_items % per_page > 0, per_page > 0, q >= 0;
        }
        n_items / per_page + 1
    }
}

/// The pages of a list of `n_items` items at `per_page` items per page, in
/// order.
pub fn paginate(n_items: usize, per_page: usize) -> (r: Vec<PageInfo>)
    requires
        per_page > 0,
    ensures
        r@.len() == page_count_spec(n_items as nat, per_page as nat),
        forall|k: int| 0 <= k < r@.len() ==> is_page(#[trigger] r@[k], n_items as nat, per_page as nat, k as nat),
{
    let count = page_count(n_items, per_page);
    let ghost n = n_items as nat;
    let ghost size = per_page as nat;
    proof {
        lemma_page_count_bounds(n, size);
    }
    let mut pages: Vec<PageInfo> = Vec::new();
    let mut k: usize = 0;
    let mut start: usize = 0;
    while k < count
        invariant
            count == page_count_spec(n, size),
            n == n_items,
            size == per_page,
            size > 0,
            n > 0 ==> (count - 1) * size < n <= count * size,
            n == 0 ==> count == 1,
            k <= count,
            pages@.len() == k,
            k < count ==> start == k * size,
            k < count ==> start <= n,
            forall|j: int| 0 <= j < k ==> is_page(#[trigger] pages@[j], n, size, j as nat),
        decreases count - k,
    {
        let end = if n_items - start > per_page { start + per_page } else { n_items };
        assert(end == min_int(((k + 1) * size) as int, n as int)) by (nonlinear_arith)
            requires start == k * size, end == (if n - start > size { start + size } else { n as int });
        let previous = if k == 0 { None } else { Some(k) };
        let next = if k + 1 < count { Some(k + 2) } else { None };
        pages.push(PageInfo { page: k + 1, page_max: count, previous, next, start, end });
        proof {
            if k + 1 < count {
                assert((k + 1) * size <= (count - 1) * size) by {
                    lemma_mul_inequality((k + 1) as int, (count - 1) as int, size as int);
                }
                assert(end == start + size) by (nonlinear_arith)
                    requires start == k * size, (k + 1) * size < n, end == (if n - start > size { start + size } else { n as int });
            }
        }
        k = k + 1;
        start = if k < count { end } else { start };
        assert(k < count ==> start == k * size) by (nonlinear_arith)
            requires k < count ==> start == (k - 1) * size + size;
    }
    pages
}


/// Page `p` shows list position `i`.
pub open spec fn shows(p: PageInfo, i: int) -> bool {
    p.start <= i < p.end
}

/// Total number of list positions shown by `pages`.
pub open spec fn total_shown(pages: Seq<PageInfo>) -> int
    decreases pages.len(),
{
    if pages.len() == 0 {
        0
    } else {
        total_shown(pages.drop_last()) + (pages.last().end - pages.last().start)
    }
}

proof fn lemma_total_prefix(pages: Seq<PageInfo>, n: nat, size: nat, k: nat)
    requires
        size > 0,
        n > 0,
        pages.len() == page_count_spec(n, size),
        forall|j: int| 0 <= j < pages.len() ==> #[trigger] is_page(pages[j], n, size, j as nat),
        k <= pages.len(),
    ensures
        total_shown(pages.take(k as int)) == min_int((k * size) as int, n as int),
    decreases k,
{
    lemma_page_count_bounds(n, size);
    if k > 0 {
        let prev = (k - 1) as nat;
        lemma_total_prefix(pages, n, size, prev);
        assert(pages.take(k as int).drop_last() == pages.take(prev as int));
        assert(pages.take(k as int).last() == pages[prev as int]);
        assert(is_page(pages[prev as int], n, size, prev));
        let count = page_count_spec(n, size);
        assert(prev * size <= n) by {
            if prev > 0 {
                lemma_mul_inequality(prev as int, (count - 1) as int, size as int);
            }
        }
        assert(prev * size + size == k * size) by (nonlinear_arith)
            requires prev == k - 1;
        let last = pages[prev as int];
        assert(last.start == prev * size);
        assert(last.end == min_int((k * size) as int, n as int));
        assert(total_shown(pages.take(k as int)) == total_shown(pages.take(prev as int)) + (last.end - last.start));
    } else {
        assert(k * size == 0) by (nonlinear_arith)
            requires k == 0;
        assert(pages.take(0).len() == 0);
    }
}

/// Pagination loses and repeats nothing: the pages of a non-empty list show
/// exactly as many positions as the list has, there are
/// `ceil(n_items / per_page)` of them, and each position lies on exactly one
/// page.
pub proof fn law_pages_cover_list(pages: Seq<PageInfo>, n_items: nat, per_page: nat)
    requires
        per_page > 0,
        n_items > 0,
        pages.len() == page_count_spec(n_items, per_page),
        forall|k: int| 0 <= k < pages.len() ==> #[trigger] is_page(pages[k], n_items, per_page, k as nat),
    ensures
        total_shown(pages) == n_items,
        (pages.len() - 1) * per_page < n_items <= pages.len() * per_page,
        forall|i: int| 0 <= i < n_items ==> #[trigger] shows(pages[i / (per_page as int)], i) && 0 <= i / (per_page as int) < pages.len(),
        forall|i: int, k1: int, k2: int|
            0 <= k1 < pages.len() && 0 <= k2 < pages.len()
            && #[trigger] shows(pages[k1], i) && #[trigger] shows(pages[k2], i) ==> k1 == k2,
{
    lemma_page_count_bounds(n_items, per_page);
    let count = pages.len();
    lemma_total_prefix(pages, n_items, per_page, count);
    assert(pages.take(count as int) == pages);
    assert forall|i: int| 0 <= i < n_items implies #[trigger] shows(pages[i / (per_page as int)], i) && 0 <= i / (per_page as int) < pages.len() by {
        let sz = per_page as int;
        let k = i / sz;
        lemma_fundamental_div_mod(i, sz);
        lemma_mod_bound(i, sz);
        assert(0 <= k) by {
            lemma_div_pos_is_pos(i, per_page as int);
        }
        assert(k * sz <= i < (k + 1) * sz) by (nonlinear_arith)
            requires i == sz * k + i % sz, 0 <= i % sz < sz;
        assert(count * sz >= n_items);
        assert(k < count) by {
            if k >= count {
                lemma_mul_inequality(count as int, k, sz);
                assert(count * sz <= k * sz);
            }
        }
        assert(is_page(pages[k], n_items, per_page, k as nat));
        assert(pages[k].start == k * sz);
        assert(pages[k].end == min_int((k + 1) * sz, n_items as int));
        assert(shows(pages[k], i));
    }
    assert forall|i: int, k1: int, k2: int|
        0 <= k1 < pages.len() && 0 <= k2 < pages.len()
        && #[trigger] shows(pages[k1], i) && #[trigger] shows(pages[k2], i) implies k1 == k2 by {
        assert(is_page(pages[k1], n_items, per_page, k1 as nat));
        assert(is_page(pages[k2], n_items, per_page, k2 as nat));
        if k1 < k2 {
            lemma_mul_inequality(k1 + 1, k2, per_page as int);
        } else if k2 < k1 {
            lemma_mul_inequality(k2 + 1, k1, per_page as int);
        }
    }
}

} // verus!
