//! Paged listings of catalog entries, with an optional search term.
use vstd::prelude::*;
use crate::catalog::CatalogEntry;
use crate::text::{eq_ignore_ascii_case, char_eq_ignore_case, ascii_lower};
use crate::pipeline::QueueStats;
use crate::sorting::{is_sorted, sort_choice, sort_choice_spec, sort_entries};

verus! {

/// The largest page size a listing serves.
pub const MAX_PAGE_SIZE: u32 = 1000;

/// What a paged listing asks for.
#[derive(Debug)]
pub struct PaginationParams {
    /// The page, counted from 1.
    pub page: u32,
    pub page_size: u32,
    /// Keeps only entries whose name or path contains this, up to ASCII case.
    pub search: Option<String>,
    pub sort_by: Option<String>,
    pub sort_order: Option<String>,
}

/// The page a listing shows when none is asked for.
pub fn default_page() -> (r: u32)
    ensures
        r == 1,
{
    1
}

/// The page size a listing uses when none is asked for.
pub fn default_page_size() -> (r: u32)
    ensures
        r == 20,
{
    20
}

/// Where a page stands among all pages.
#[derive(Clone, Copy, Debug, PartialEq, Eq, Structural)]
pub struct PaginationInfo {
    pub page: u32,
    pub page_size: u32,
    pub total: u64,
    pub total_pages: u32,
    pub has_next: bool,
    pub has_prev: bool,
}

/// One page of entries and where it stands.
#[derive(Debug)]
pub struct PaginatedVideoList {
    pub videos: Vec<CatalogEntry>,
    pub pagination: PaginationInfo,
}

/// The pipeline's counters as the status surface reports them.
#[derive(Clone, Copy, Debug, PartialEq, Eq, Structural)]
pub struct TaskQueueStatusResponse {
    pub pending_count: usize,
    pub running_count: usize,
    pub completed_count: u64,
    pub failed_count: u64,
}

impl TaskQueueStatusResponse {
    /// The status report of a set of counters.
    pub fn from_stats(s: QueueStats) -> (r: TaskQueueStatusResponse)
        ensures
            r.pending_count == s.pending_count,
            r.running_count == s.running_count,
            r.completed_count == s.completed_count,
            r.failed_count == s.failed_count,
    {
        TaskQueueStatusResponse {
            pending_count: s.pending_count,
            running_count: s.running_count,
            completed_count: s.completed_count,
            failed_count: s.failed_count,
        }
    }
}

/// Why a paged listing was refused.
#[derive(Clone, Copy, Debug, PartialEq, Eq, Structural)]
pub enum PageError {
    PageZero,
    PageSizeZero,
    PageSizeTooLarge,
}

/// The error, if any, for a requested page and page size.
pub open spec fn page_error(page: u32, page_size: u32) -> Option<PageError> {
    if page == 0 {
        Some(PageError::PageZero)
    } else if page_size == 0 {
        Some(PageError::PageSizeZero)
    } else if page_size > MAX_PAGE_SIZE {
        Some(PageError::PageSizeTooLarge)
    } else {
        None
    }
}

/// The error, if any, for a page and page size that a listing is asked
/// to serve: only page zero and page size zero cannot be served.
pub open spec fn listing_error(page: u32, page_size: u32) -> Option<PageError> {
    if page == 0 {
        Some(PageError::PageZero)
    } else if page_size == 0 {
        Some(PageError::PageSizeZero)
    } else {
        None
    }
}

/// Checks a requested page and page size.
pub fn validate_pagination(page: u32, page_size: u32) -> (r: Result<(), PageError>)
    ensures
        match page_error(page, page_size) {
            Some(e) => r == Err::<(), PageError>(e),
            None => r is Ok,
        },
{
    if page == 0 {
        Err(PageError::PageZero)
    } else if page_size == 0 {
        Err(PageError::PageSizeZero)
    } else if page_size > MAX_PAGE_SIZE {
        Err(PageError::PageSizeTooLarge)
    } else {
        Ok(())
    }
}

/// The number of pages that `total` entries fill, at most `u32::MAX`.
pub open spec fn total_pages_spec(total: nat, page_size: nat) -> nat {
    let n: int = (total + page_size - 1) / (page_size as int);
    if n > u32::MAX { u32::MAX as nat } else { n as nat }
}

/// Where page `page` of `total` entries stands.
pub fn pagination_info(page: u32, page_size: u32, total: u64) -> (r: PaginationInfo)
    requires
        page_size > 0,
    ensures
        r.page == page,
        r.page_size == page_size,
        r.total == total,
        r.total_pages as nat == total_pages_spec(total as nat, page_size as nat),
        r.has_next == (page < r.total_pages),
        r.has_prev == (page > 1),
{
    let ps = page_size as u64;
    let q = total / ps;
    let n: u64 = if total % ps == 0 {
        q
    } else {
        assert(q < u64::MAX) by (nonlinear_arith)
            requires q == total / ps, total % ps != 0, ps > 0, total <= u64::MAX;
        q + 1
    };
    assert(n as int == (total as int + ps as int - 1) / (ps as int)) by (nonlinear_arith)
        requires ps > 0, q == total / ps, n as int == q as int + if total as int % ps as int == 0 { 0int } else { 1int };
    let total_pages: u32 = if n > u32::MAX as u64 { u32::MAX } else { n as u32 };
    PaginationInfo {
        page,
        page_size,
        total,
        total_pages,
        has_next: page < total_pages,
        has_prev: page > 1,
    }
}

/// Whether `needle` occurs in `hay`, up to ASCII case.
pub open spec fn contains_ignore_case(hay: Seq<char>, needle: Seq<char>) -> bool {
    exists|i: int| 0 <= i && i + needle.len() <= hay.len()
        && #[trigger] eq_ignore_ascii_case(hay.subrange(i, i + needle.len()), needle)
}

fn matches_ignore_case_at(hay: &str, i: usize, needle: &str) -> (r: bool)
    requires
        i + needle@.len() <= hay@.len(),
    ensures
        r == eq_ignore_ascii_case(hay@.subrange(i as int, i + needle@.len()), needle@),
{
    let n = hay.unicode_len();
    let m = needle.unicode_len();
    let mut j: usize = 0;
    while j < m
        invariant
            n == hay@.len(),
            m == needle@.len(),
            i + m <= hay@.len(),
            j <= m,
            forall|t: int| 0 <= t < j ==> ascii_lower(#[trigger] hay@[i + t]) == ascii_lower(needle@[t]),
        decreases m - j,
    {
        if !char_eq_ignore_case(hay.get_char(i + j), needle.get_char(j)) {
            assert(hay@.subrange(i as int, i + m)[j as int] == hay@[i + j]);
            return false;
        }
        j = j + 1;
    }
    assert forall|t: int| 0 <= t < m implies
        #[trigger] ascii_lower(hay@.subrange(i as int, i + m)[t]) == ascii_lower(needle@[t]) by {
        assert(hay@.subrange(i as int, i + m)[t] == hay@[i + t]);
    }
    true
}

/// Whether `needle` occurs in `hay`, up to ASCII case.
pub fn contains_text(hay: &str, needle: &str) -> (r: bool)
    ensures
        r == contains_ignore_case(hay@, needle@),
{
    let n = hay.unicode_len();
    let m = needle.unicode_len();
    if m > n {
        return false;
    }
    let mut i: usize = 0;
    while i <= n - m
        invariant
            n == hay@.len(),
            m == needle@.len(),
            m <= n,
            i <= n - m + 1,
            forall|k: int| 0 <= k < i ==> !#[trigger] eq_ignore_ascii_case(hay@.subrange(k, k + m), needle@),
        decreases n - i,
    {
        if matches_ignore_case_at(hay, i, needle) {
            return true;
        }
        i = i + 1;
    }
    false
}

/// Whether an entry passes the search term: an empty or absent term passes
/// everything, otherwise its name or its path must contain the term.
pub open spec fn passes_search(e: CatalogEntry, term: Option<Seq<char>>) -> bool {
    match term {
        None => true,
        Some(t) => t.len() == 0 || contains_ignore_case(e.name@, t) || contains_ignore_case(e.path@, t),
    }
}

/// The search filter as a predicate on entries.
pub open spec fn search_filter(term: Option<Seq<char>>) -> spec_fn(CatalogEntry) -> bool {
    |e: CatalogEntry| passes_search(e, term)
}

/// The view of an optional search term.
pub open spec fn term_view(search: Option<&str>) -> Option<Seq<char>> {
    match search {
        Some(s) => Some(s@),
        None => None,
    }
}

/// The entries of page `page` (counted from 1) of size `page_size` among
/// `items`.
pub open spec fn page_slice(items: Seq<CatalogEntry>, page: nat, page_size: nat) -> Seq<CatalogEntry> {
    let start = (page - 1) * page_size;
    if start >= items.len() {
        Seq::empty()
    } else if start + page_size >= items.len() {
        items.subrange(start, items.len() as int)
    } else {
        items.subrange(start, start + page_size)
    }
}

/// One page of the entries of `items` that pass the search term, ordered
/// as `sort_by` and `sort_order` ask (see `sort_choice_spec`), with the
/// page's standing among all pages. A page number of zero and a page size
/// of zero are refused; any other size is served (the request check
/// `validate_pagination` bounds what a caller may ask for).
pub fn get_root_videos_paginated(
    items: Vec<CatalogEntry>,
    page: u32,
    page_size: u32,
    search: Option<&str>,
    sort_by: Option<&str>,
    sort_order: Option<&str>,
) -> (r: Result<PaginatedVideoList, PageError>)
    ensures
        match listing_error(page, page_size) {
            Some(e) => r matches Err(x) && x == e,
            None => r matches Ok(list) && {
                let kept = items@.filter(search_filter(term_view(search)));
                let (f, o) = sort_choice_spec(term_view(sort_by), term_view(sort_order));
                &&& exists|ordered: Seq<CatalogEntry>| {
                    &&& is_sorted(ordered, f, o)
                    &&& #[trigger] ordered.to_multiset() == kept.to_multiset()
                    &&& list.videos@ == page_slice(ordered, page as nat, page_size as nat)
                }
                &&& list.pagination.total as nat == kept.len()
                &&& list.pagination.page == page
                &&& list.pagination.page_size == page_size
                &&& list.pagination.total_pages as nat == total_pages_spec(kept.len(), page_size as nat)
                &&& list.pagination.has_next == (page < list.pagination.total_pages)
                &&& list.pagination.has_prev == (page > 1)
            },
        },
{
    if page == 0 {
        return Err(PageError::PageZero);
    }
    if page_size == 0 {
        return Err(PageError::PageSizeZero);
    }
    let ghost pred = search_filter(term_view(search));
    let ghost src = items@;
    let count_in = items.len();
    assert(src.len() == count_in);
    let mut items = items;
    let mut kept: Vec<CatalogEntry> = Vec::new();
    let mut i: usize = 0;
    proof {
        reveal(Seq::filter);
        assert(src.subrange(0, 0) =~= Seq::<CatalogEntry>::empty());
    }
    let ghost consumed: int = 0;
    while items.len() > 0
        invariant
            src.len() <= usize::MAX,
            src.len() == i + items@.len(),
            items@ == src.subrange(i as int, src.len() as int),
            kept@ == src.subrange(0, i as int).filter(pred),
            pred == search_filter(term_view(search)),
        decreases items@.len(),
    {
        let e = items.remove(0);
        proof {
            reveal(Seq::filter);
            assert(src.subrange(0, i + 1).drop_last() =~= src.subrange(0, i as int));
            assert(src[i as int] == e);
        }
        let keep = match search {
            None => true,
            Some(t) => t.unicode_len() == 0 || contains_text(e.name.as_str(), t) || contains_text(e.path.as_str(), t),
        };
        if keep {
            kept.push(e);
        }
        i = i + 1;
        assert(items@ =~= src.subrange(i as int, src.len() as int));
    }
    assert(src.subrange(0, src.len() as int) =~= src);
    let total = kept.len();
    let (field, order) = sort_choice(sort_by, sort_order);
    let ghost kept_view = kept@;
    let mut kept = sort_entries(kept, field, order);
    proof {
        vstd::seq_lib::to_multiset_len(kept@);
        vstd::seq_lib::to_multiset_len(kept_view);
    }
    assert(kept@.len() == total);
    let ghost ordered = kept@;
    assert((page as u64 - 1) * (page_size as u64) <= 4294967295u64 * 4294967295u64) by (nonlinear_arith)
        requires 1 <= page <= 4294967295u64, page_size <= 4294967295u64;
    let start: u64 = (page as u64 - 1) * (page_size as u64);
    let mut videos: Vec<CatalogEntry> = Vec::new();
    if start < total as u64 {
        let end: usize = if start + (page_size as u64) >= total as u64 { total } else { (start + page_size as u64) as usize };
        let mut rest = kept.split_off(start as usize);
        rest.truncate(end - start as usize);
        videos = rest;
    }
    let info = pagination_info(page, page_size, total as u64);
    assert(videos@ == page_slice(ordered, page as nat, page_size as nat));
    Ok(PaginatedVideoList { videos, pagination: info })
}

} // verus!
