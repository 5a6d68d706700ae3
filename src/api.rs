//! The Légifrance (Piste) JSON API: request model and query planning.
//!
//! A search answers at most 100 pages of 100 results. To reach every result
//! of a large search, the year range is split into steps and each step is
//! paginated separately.
pub mod piste;
pub mod client;

use vstd::prelude::*;

use crate::api::client::PageQuery;

verus! {

/// Results per page.
pub const PAGE_SIZE: u64 = 100;

/// Pages a single search can reach.
pub const MAX_PAGES: u64 = 100;

/// Default divisor applied to the estimated step size, to stay below the page limit.
pub const STEP_REDUCTION: u64 = 3;

/// Default first year of a search without one.
pub const DEFAULT_START_YEAR: u64 = 1900;

/// Default end year of a search without one.
pub const DEFAULT_END_YEAR: u64 = 2025;

pub open spec fn ceil_div(a: int, b: int) -> int {
    (a + b - 1) / b
}

/// The step size, in years, for a search with `total` results: the number of
/// full result sets (`MAX_PAGES * PAGE_SIZE` results) it spans, divided by
/// `reduction`, and at least one.
pub open spec fn step_size_for(total: u64, reduction: u64) -> int {
    let s = ceil_div(total as int, 10000) / (reduction as int);
    if s < 1 {
        1
    } else {
        s
    }
}

/// The step size with a chosen reduction divisor.
pub fn compute_step_size_with(total: u64, reduction: u64) -> (r: u64)
    requires
        reduction > 0,
    ensures
        r as int == step_size_for(total, reduction),
        r >= 1,
{
    let full = total / 10000 + if total % 10000 != 0 {
        1u64
    } else {
        0u64
    };
    assert(full as int == ceil_div(total as int, 10000)) by (nonlinear_arith)
        requires
            full == total / 10000 + if total % 10000 != 0 {
                1int
            } else {
                0int
            },
    ;
    let s = full / reduction;
    if s < 1 {
        1
    } else {
        s
    }
}

/// The step size, in years, used to split a search with `total` results.
pub fn compute_step_size(total: u64) -> (r: u64)
    ensures
        r as int == step_size_for(total, STEP_REDUCTION),
        r >= 1,
{
    compute_step_size_with(total, STEP_REDUCTION)
}

/// The year ranges `[start, end)` cut into steps of `step` years; the last
/// one ends at `end`.
pub open spec fn year_ranges(start: u64, end: u64, step: u64) -> Seq<(u64, u64)>
    decreases end - start,
{
    if start >= end || step == 0 {
        Seq::empty()
    } else if end - start <= step {
        seq![(start, end)]
    } else {
        seq![(start, (start + step) as u64)] + year_ranges((start + step) as u64, end, step)
    }
}

/// The year ranges tile `[start, end)`: the first begins at `start`, each one
/// begins where the previous one ends, the last ends at `end`, and none is
/// empty or longer than `step` years.
pub proof fn lemma_year_ranges_tile(start: u64, end: u64, step: u64)
    requires
        step > 0,
        start < end,
    ensures
        year_ranges(start, end, step).len() > 0,
        year_ranges(start, end, step)[0].0 == start,
        year_ranges(start, end, step).last().1 == end,
        forall|k: int|
            0 <= k < year_ranges(start, end, step).len() ==> {
                let r = #[trigger] year_ranges(start, end, step)[k];
                r.0 < r.1 && r.1 <= r.0 + step
            },
        forall|k: int|
            0 <= k < year_ranges(start, end, step).len() - 1 ==> (#[trigger] year_ranges(
                start,
                end,
                step,
            )[k]).1 == year_ranges(start, end, step)[k + 1].0,
    decreases end - start,
{
    let r = year_ranges(start, end, step);
    if end - start > step {
        let next = (start + step) as u64;
        let rest = year_ranges(next, end, step);
        lemma_year_ranges_tile(next, end, step);
        assert(r == seq![(start, next)] + rest);
        assert forall|k: int| 0 <= k < r.len() implies {
            let x = #[trigger] r[k];
            x.0 < x.1 && x.1 <= x.0 + step
        } by {
            if k > 0 {
                assert(r[k] == rest[k - 1]);
            }
        }
        assert forall|k: int| 0 <= k < r.len() - 1 implies (#[trigger] r[k]).1 == r[k + 1].0 by {
            assert(r[k + 1] == rest[k]);
            if k > 0 {
                assert(r[k] == rest[k - 1]);
            }
        }
        assert(r.last() == rest.last());
    }
}

/// The first year of a search: its own, or `DEFAULT_START_YEAR`.
pub open spec fn start_year_of(pq: PageQuery) -> u64 {
    match pq.start_year {
        Some(y) => y,
        None => DEFAULT_START_YEAR,
    }
}

/// The end year of a search: its own, or `DEFAULT_END_YEAR`.
pub open spec fn end_year_of(pq: PageQuery) -> u64 {
    match pq.end_year {
        Some(y) => y,
        None => DEFAULT_END_YEAR,
    }
}

/// `q` is `pq` restricted to the years `[range.0, range.1]`.
pub open spec fn restricted_to(q: PageQuery, pq: PageQuery, range: (u64, u64)) -> bool {
    &&& q.text@ == pq.text@
    &&& q.page == pq.page
    &&& q.fond == pq.fond
    &&& q.start_year == Some(range.0)
    &&& q.end_year == Some(range.1)
}

/// Splits the year range of a search into steps of `step_size` years, one
/// query per step.
pub fn split_year_ranges(pq: &PageQuery, step_size: u64) -> (r: Vec<PageQuery>)
    requires
        step_size > 0,
    ensures
        r.len() == year_ranges(start_year_of(*pq), end_year_of(*pq), step_size).len(),
        forall|k: int|
            0 <= k < r.len() ==> restricted_to(
                #[trigger] r@[k],
                *pq,
                year_ranges(start_year_of(*pq), end_year_of(*pq), step_size)[k],
            ),
{
    let start = match pq.start_year {
        Some(y) => y,
        None => DEFAULT_START_YEAR,
    };
    let end = match pq.end_year {
        Some(y) => y,
        None => DEFAULT_END_YEAR,
    };
    let step = step_size;
    let ghost all = year_ranges(start, end, step);
    let mut r: Vec<PageQuery> = Vec::new();
    let mut year = start;
    let mut done = start >= end;
    while !done
        invariant
            step > 0,
            all == year_ranges(start, end, step),
            done ==> r.len() == all.len(),
            !done ==> year < end && r@.len() + year_ranges(year, end, step).len() == all.len()
                && forall|k: int|
                0 <= k < year_ranges(year, end, step).len() ==> year_ranges(year, end, step)[k]
                    == all[r.len() + k],
            forall|k: int| 0 <= k < r.len() ==> restricted_to(#[trigger] r@[k], *pq, all[k]),
        decreases end - year, if done { 0int } else { 1int },
    {
        let ghost rest = year_ranges(year, end, step);
        let last = end - year <= step;
        let stop = if last {
            end
        } else {
            year + step
        };
        assert(rest[0] == (year, stop));
        assert(all[r.len() as int] == (year, stop));
        r.push(
            PageQuery {
                text: pq.text.clone(),
                page: pq.page,
                start_year: Some(year),
                end_year: Some(stop),
                fond: pq.fond,
            },
        );
        if last {
            done = true;
        } else {
            let ghost next = year_ranges(stop, end, step);
            assert forall|k: int| 0 <= k < next.len() implies next[k] == all[r.len() + k] by {
                assert(rest[k + 1] == next[k]);
            }
            year = stop;
        }
    }
    r
}

/// The error returned when a search has more pages than the API serves.
#[derive(Debug, Clone, Copy, PartialEq, Eq, Structural)]
pub struct TooManyPages {
    pub pages: u64,
}

/// Number of pages needed for `total` results.
pub open spec fn page_count(total: u64) -> int {
    ceil_div(total as int, PAGE_SIZE as int)
}

/// The queries for every page of a search with `total` results: pages 1 to
/// `ceil(total / 100)`, or `TooManyPages` when that exceeds 100.
pub fn compute_pagination(pq: &PageQuery, total: u64) -> (r: Result<Vec<PageQuery>, TooManyPages>)
    ensures
        page_count(total) > MAX_PAGES ==> r == Err::<Vec<PageQuery>, TooManyPages>(
            TooManyPages { pages: page_count(total) as u64 },
        ),
        page_count(total) <= MAX_PAGES ==> r is Ok && r->Ok_0.len() == page_count(total) && (
        forall|k: int|
            0 <= k < r->Ok_0.len() ==> {
                let q = #[trigger] r->Ok_0@[k];
                &&& q.page == k + 1
                &&& q.text@ == pq.text@
                &&& q.start_year == pq.start_year
                &&& q.end_year == pq.end_year
                &&& q.fond == pq.fond
            }),
{
    let pages = total / PAGE_SIZE + if total % PAGE_SIZE != 0 {
        1u64
    } else {
        0u64
    };
    assert(pages as int == page_count(total)) by (nonlinear_arith)
        requires
            pages == total / 100 + if total % 100 != 0 {
                1int
            } else {
                0int
            },
    ;
    if pages > MAX_PAGES {
        return Err(TooManyPages { pages });
    }
    let mut r: Vec<PageQuery> = Vec::new();
    let mut p: u64 = 1;
    while p <= pages
        invariant
            pages <= MAX_PAGES,
            1 <= p <= pages + 1,
            r.len() == p - 1,
            forall|k: int|
                0 <= k < r.len() ==> {
                    let q = #[trigger] r@[k];
                    &&& q.page == k + 1
                    &&& q.text@ == pq.text@
                    &&& q.start_year == pq.start_year
                    &&& q.end_year == pq.end_year
                    &&& q.fond == pq.fond
                },
        decreases pages + 1 - p,
    {
        r.push(
            PageQuery {
                text: pq.text.clone(),
                page: p as u8,
                start_year: pq.start_year,
                end_year: pq.end_year,
                fond: pq.fond,
            },
        );
        p += 1;
    }
    Ok(r)
}

} // verus!
