use vstd::arithmetic::div_mod::{lemma_fundamental_div_mod, lemma_mod_bound};
use vstd::prelude::*;

verus! {

/// One slice of a paginated listing: the 1-based page number, the
/// number of entries before it, and the number of entries on it.
#[derive(Clone, Copy, PartialEq, Eq, Structural, Debug)]
pub struct PageSlice {
    pub current_page: usize,
    pub offset: usize,
    pub num_posts: usize,
}

/// How many pages a listing of `count` entries needs at `per_page` per
/// page: the quotient of `count` by `per_page`, rounded up.
pub open spec fn spec_num_pages(count: nat, per_page: nat) -> nat
    recommends
        per_page >= 1,
{
    ((count + per_page - 1) / (per_page as int)) as nat
}

/// The entries on page `i` (1-based): `per_page` on every page before
/// the last, the remainder on the last.
pub open spec fn spec_posts_on_page(count: nat, per_page: nat, i: nat) -> nat
    recommends
        per_page >= 1,
        1 <= i <= spec_num_pages(count, per_page),
{
    if i < spec_num_pages(count, per_page) {
        per_page
    } else {
        (count - per_page * (i - 1)) as nat
    }
}

/// The total of `num_posts` over a sequence of slices.
pub open spec fn sum_posts(pages: Seq<PageSlice>) -> int
    decreases pages.len(),
{
    if pages.len() == 0 {
        0
    } else {
        sum_posts(pages.drop_last()) + pages.last().num_posts
    }
}

/// Rounding up gives the right page count: no pages only for an empty
/// listing, every entry on a page, and no page past the entries.
pub proof fn lemma_num_pages(count: nat, per_page: nat)
    requires
        per_page >= 1,
    ensures
        spec_num_pages(count, per_page) * per_page >= count,
        count == 0 ==> spec_num_pages(count, per_page) == 0,
        count > 0 ==> spec_num_pages(count, per_page) >= 1,
        spec_num_pages(count, per_page) >= 1 ==> (spec_num_pages(count, per_page) - 1) * per_page
            < count,
{
    let p = per_page as int;
    let x = count + per_page - 1;
    lemma_fundamental_div_mod(x, p);
    lemma_mod_bound(x, p);
    let n = spec_num_pages(count, per_page) as int;
    assert(x == p * (x / p) + x % p);
    assert(n * p == p * n) by (nonlinear_arith);
    assert((n - 1) * p == n * p - p) by (nonlinear_arith);
    if count == 0 {
        assert(x < p);
        assert(x / p == 0) by {
            if x / p >= 1 {
                assert(p * (x / p) >= p) by (nonlinear_arith)
                    requires
                        x / p >= 1,
                        p >= 1,
                ;
            }
            if x / p < 0 {
                assert(p * (x / p) <= -p) by (nonlinear_arith)
                    requires
                        x / p <= -1,
                        p >= 1,
                ;
            }
        }
    }
}

/// The last page of a busy listing holds between 1 and `per_page`
/// entries; every listing's page entry counts add up to its total.
pub proof fn lemma_last_page_bounds(count: nat, per_page: nat)
    requires
        per_page >= 1,
        count > 0,
    ensures
        1 <= spec_posts_on_page(count, per_page, spec_num_pages(count, per_page)) <= per_page,
        count - per_page * (spec_num_pages(count, per_page) - 1) == spec_posts_on_page(
            count,
            per_page,
            spec_num_pages(count, per_page),
        ),
{
    lemma_num_pages(count, per_page);
    let n = spec_num_pages(count, per_page) as int;
    let p = per_page as int;
    assert((n - 1) * p == p * (n - 1)) by (nonlinear_arith);
    assert(n * p == p * (n - 1) + p) by (nonlinear_arith);
}

/// Splits `count` entries into pages of `per_page`, giving each page
/// its number, its offset, and its entry count.
pub fn paginate(count: usize, per_page: usize) -> (pages: Vec<PageSlice>)
    requires
        per_page >= 1,
        count + per_page <= usize::MAX,
    ensures
        pages@.len() == spec_num_pages(count as nat, per_page as nat),
        forall|k: int|
            0 <= k < pages@.len() ==> (#[trigger] pages@[k]).current_page == k + 1
                && pages@[k].offset == k * per_page && pages@[k].num_posts == spec_posts_on_page(
                count as nat,
                per_page as nat,
                (k + 1) as nat,
            ),
        sum_posts(pages@) == count,
{
    proof {
        lemma_num_pages(count as nat, per_page as nat);
        if count > 0 {
            lemma_last_page_bounds(count as nat, per_page as nat);
        }
    }
    let n_pages: usize = (count + per_page - 1) / per_page;
    let ghost n = spec_num_pages(count as nat, per_page as nat);
    let mut pages: Vec<PageSlice> = Vec::new();
    let mut off: usize = 0;
    let mut k: usize = 0;
    while k < n_pages
        invariant
            per_page >= 1,
            count + per_page <= usize::MAX,
            n == spec_num_pages(count as nat, per_page as nat),
            n_pages == n,
            n * per_page >= count,
            n >= 1 ==> (n - 1) * per_page < count,
            0 <= k <= n_pages,
            k < n_pages ==> off == k * per_page,
            k == n_pages ==> off == count,
            pages@.len() == k,
            forall|t: int|
                0 <= t < k ==> (#[trigger] pages@[t]).current_page == t + 1 && pages@[t].offset == t
                    * per_page && pages@[t].num_posts == spec_posts_on_page(
                    count as nat,
                    per_page as nat,
                    (t + 1) as nat,
                ),
            sum_posts(pages@) == off,
        decreases n_pages - k,
    {
        proof {
            assert((k + 1) * per_page == k * per_page + per_page) by (nonlinear_arith);
            if k + 1 < n {
                assert((k + 1) * per_page <= (n - 1) * per_page) by (nonlinear_arith)
                    requires
                        k + 1 <= n - 1,
                        per_page >= 1,
                ;
            } else {
                assert(k == n - 1);
                assert(per_page * k == k * per_page) by (nonlinear_arith);
                assert((n - 1) * per_page == per_page * k) by (nonlinear_arith)
                    requires
                        k == n - 1,
                ;
                assert(per_page * k < count);
            }
        }
        let num: usize = if k + 1 < n_pages {
            per_page
        } else {
            count - off
        };
        proof {
            if k + 1 < n {
                assert(spec_posts_on_page(count as nat, per_page as nat, (k + 1) as nat)
                    == per_page as nat);
            } else {
                assert(spec_posts_on_page(count as nat, per_page as nat, (k + 1) as nat) == (count
                    - per_page * k) as nat);
                assert(num == count - off);
            }
        }
        let slice = PageSlice { current_page: k + 1, offset: off, num_posts: num };
        let ghost prev = pages@;
        pages.push(slice);
        proof {
            assert(pages@.drop_last() =~= prev);
        }
        off = off + num;
        k = k + 1;
        proof {
            if k < n_pages {
                assert(off == k * per_page);
            }
            assert(sum_posts(pages@) == off);
        }
    }
    proof {
        if n == 0 {
            assert(sum_posts(pages@) == 0);
            assert(count <= n * per_page);
            assert(n * per_page == 0) by (nonlinear_arith)
                requires
                    n == 0,
            ;
        }
    }
    pages
}

} // verus!
