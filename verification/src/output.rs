//! Paging a sorted result set and framing a page in the taginfo envelope.
//! Serialising the framed value and printing it are left to the caller.

use vstd::prelude::*;

verus! {

/// One page of a sorted result: the total row count before paging, and the
/// requested page's rows.
pub struct Page<T> {
    pub total: usize,
    pub rows: Vec<T>,
}

/// The first row of a 1-based `page` of `rp` rows (page 0 is read as page 1).
pub open spec fn page_start(page: int, rp: int) -> int {
    if page <= 1 { 0 } else { (page - 1) * rp }
}

/// The `[start, end)` rows of `page` at `rp` rows a page, both clamped to
/// `total`; all rows when `rp == 0`.
pub open spec fn page_range(total: int, page: int, rp: int) -> (int, int) {
    if rp == 0 {
        (0, total)
    } else {
        let start = if page_start(page, rp) < total { page_start(page, rp) } else { total };
        let end = if start + rp < total { start + rp } else { total };
        (start, end)
    }
}

/// The rows of `page` at `rp` rows a page.
pub open spec fn paged<T>(rows: Seq<T>, page: int, rp: int) -> Seq<T> {
    let (s, e) = page_range(rows.len() as int, page, rp);
    rows.subrange(s, e)
}

/// The first row of a page is never negative.
pub proof fn lemma_page_start_nonneg(page: int, rp: int)
    requires
        rp >= 0,
    ensures
        page_start(page, rp) >= 0,
{
    if page > 1 {
        assert((page - 1) * rp >= 0) by (nonlinear_arith)
            requires page > 1, rp >= 0;
    }
}

/// A page holds at most `rp` rows, `rp == 0` pages hold every row, and a
/// page past the end is empty.
pub proof fn lemma_page_size<T>(rows: Seq<T>, page: int, rp: int)
    requires
        rp >= 0,
    ensures
        rp > 0 ==> paged(rows, page, rp).len() <= rp,
        rp == 0 ==> paged(rows, page, rp) == rows,
        rp > 0 && page_start(page, rp) >= rows.len() ==> paged(rows, page, rp).len() == 0,
{
    lemma_page_start_nonneg(page, rp);
    if rp == 0 {
        assert(rows.subrange(0, rows.len() as int) =~= rows);
    }
}

/// Pages `1..=k` one after another.
pub open spec fn first_pages<T>(rows: Seq<T>, rp: int, k: int) -> Seq<T>
    decreases k,
{
    if k <= 0 {
        Seq::empty()
    } else {
        first_pages(rows, rp, k - 1) + paged(rows, k, rp)
    }
}

proof fn lemma_first_pages_prefix<T>(rows: Seq<T>, rp: int, k: int)
    requires
        rp > 0,
        k >= 0,
    ensures
        first_pages(rows, rp, k) == rows.subrange(
            0,
            if k * rp < rows.len() { k * rp } else { rows.len() as int },
        ),
    decreases k,
{
    if k == 0 {
        assert(rows.subrange(0, 0) =~= Seq::<T>::empty());
    } else {
        lemma_first_pages_prefix(rows, rp, k - 1);
        assert((k - 1) * rp >= 0) by (nonlinear_arith)
            requires k >= 1, rp > 0;
        assert(k * rp == (k - 1) * rp + rp) by (nonlinear_arith);
        if k > 1 {
            assert(page_start(k, rp) == (k - 1) * rp);
        } else {
            assert(page_start(k, rp) == 0);
            assert((k - 1) * rp == 0) by (nonlinear_arith)
                requires k == 1;
        }
        let prev = if (k - 1) * rp < rows.len() { (k - 1) * rp } else { rows.len() as int };
        let next = if k * rp < rows.len() { k * rp } else { rows.len() as int };
        assert(rows.subrange(0, prev) + rows.subrange(prev, next) =~= rows.subrange(0, next));
    }
}

/// Paging loses and repeats nothing: pages `1..=k` one after another, for
/// any `k` whose pages reach the last row, are the whole result set.
pub proof fn lemma_pages_cover_rows<T>(rows: Seq<T>, rp: int, k: int)
    requires
        rp > 0,
        k >= 0,
        k * rp >= rows.len(),
    ensures
        first_pages(rows, rp, k) == rows,
{
    lemma_first_pages_prefix(rows, rp, k);
    assert(rows.subrange(0, rows.len() as int) =~= rows);
}

/// The `[start, end)` row range of `page` at `rp` rows a page, clamped to
/// `total`. `rp == 0` means "all rows".
pub fn page_bounds(total: usize, page: usize, rp: usize) -> (r: (usize, usize))
    ensures
        rp == 0 ==> r == (0usize, total),
        r.0 <= r.1 <= total,
        (r.0 as int, r.1 as int) == page_range(total as int, page as int, rp as int),
{
    if rp == 0 {
        return (0, total);
    }
    proof {
        lemma_page_start_nonneg(page as int, rp as int);
    }
    let before = page.saturating_sub(1);
    let start0 = match before.checked_mul(rp) {
        Some(v) => v,
        None => usize::MAX,
    };
    proof {
        if page_start(page as int, rp as int) <= usize::MAX {
            if page > 1 {
                assert(before == page - 1);
                assert(before * rp == (page - 1) * rp);
                assert(before * rp <= usize::MAX);
            } else {
                assert(before == 0);
                assert(before * rp == 0) by (nonlinear_arith)
                    requires before == 0;
            }
            assert(start0 == page_start(page as int, rp as int));
        } else {
            assert(page > 1);
            assert(before * rp == (page - 1) * rp);
        }
    }
    let start = if start0 < total { start0 } else { total };
    let end0 = start.saturating_add(rp);
    let end = if end0 < total { end0 } else { total };
    (start, end)
}

/// Slice `rows` to the requested page. `rp == 0` means "all rows"; a page
/// past the end, however large, is empty.
pub fn paginate<T>(rows: Vec<T>, page: usize, rp: usize) -> (out: Vec<T>)
    ensures
        out@ == paged(rows@, page as int, rp as int),
{
    let (start, end) = page_bounds(rows.len(), page, rp);
    let mut rows = rows;
    let ghost all = rows@;
    let mut tail = rows.split_off(start);
    tail.truncate(end - start);
    assert(tail@ =~= paged(all, page as int, rp as int));
    tail
}

impl<T> Page<T> {
    /// Page a complete, sorted result set.
    pub fn from_rows(rows: Vec<T>, page: usize, rp: usize) -> (p: Page<T>)
        ensures
            p.total == rows@.len(),
            p.rows@ == paged(rows@, page as int, rp as int),
    {
        let total = rows.len();
        Page { total, rows: paginate(rows, page, rp) }
    }
}

/// The page an envelope reports: the effective page, which is 1 when every
/// row is returned (`rp == 0`) and for page 0, which is read as page 1.
pub open spec fn reported_page(page: int, rp: int) -> int {
    if rp == 0 || page == 0 { 1 } else { page }
}

/// The taginfo response envelope wrapping every endpoint's `data` array.
pub struct Envelope<T> {
    /// The request URL, or the canonical command line that produced it.
    pub url: String,
    /// Freshness timestamp, `YYYY-MM-DDThh:mm:ssZ`.
    pub data_until: String,
    /// The effective 1-based page (1 when all rows are returned).
    pub page: usize,
    /// Rows per page echoed back (0 = all).
    pub rp: usize,
    /// Total rows before paging.
    pub total: usize,
    pub data: Vec<T>,
}

/// What a response carries: the page's bare rows, or the rows wrapped in the
/// taginfo envelope.
pub enum Framed<T> {
    Bare(Vec<T>),
    Enveloped(Envelope<T>),
}

/// Wrap (or not) a page the endpoint already selected.
pub fn envelope_page<T>(
    url: String,
    data_until: &str,
    page: usize,
    rp: usize,
    no_envelope: bool,
    p: Page<T>,
) -> (f: Framed<T>)
    ensures
        no_envelope ==> f == Framed::Bare(p.rows),
        !no_envelope ==> (f matches Framed::Enveloped(e) && e.url == url && e.data_until@
            == data_until@ && e.page == reported_page(page as int, rp as int) && e.rp == rp
            && e.total == p.total && e.data == p.rows),
{
    let Page { total, rows } = p;
    let page = if rp == 0 || page == 0 { 1 } else { page };
    if no_envelope {
        Framed::Bare(rows)
    } else {
        Framed::Enveloped(
            Envelope { url, data_until: data_until.to_owned(), page, rp, total, data: rows },
        )
    }
}

/// Paginate a complete, sorted result set and wrap (or not) the page.
pub fn envelope<T>(
    url: String,
    data_until: &str,
    page: usize,
    rp: usize,
    no_envelope: bool,
    rows: Vec<T>,
) -> (f: Framed<T>)
    ensures
        no_envelope ==> (f matches Framed::Bare(d) && d@ == paged(rows@, page as int, rp as int)),
        !no_envelope ==> (f matches Framed::Enveloped(e) && e.url == url && e.data_until@
            == data_until@ && e.page == reported_page(page as int, rp as int) && e.rp == rp
            && e.total == rows@.len() && e.data@ == paged(rows@, page as int, rp as int)),
{
    envelope_page(url, data_until, page, rp, no_envelope, Page::from_rows(rows, page, rp))
}

} // verus!
