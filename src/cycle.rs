//! The decisions of one scrape cycle: which page to fetch next, which records a
//! fetched page hands to reconciliation, and when the cycle stops.
//!
//! The caller fetches the page that `page_to_fetch` names, hands the outcome to
//! `on_page_fetched`, reconciles the records it returns, waits the fixed
//! politeness delay, and repeats until no page is left.

use vstd::prelude::*;
use crate::offer::{Offer, OfferView, ScrapeError};
use crate::page::{articles_of, extract_first_page, extract_offers, last_page_of, views, RawPage};

verus! {

/// Where a cycle stands.
#[derive(Clone, Copy, Debug, PartialEq, Eq, Structural)]
pub enum CycleState {
    /// Page 1 is to be fetched; it also gives the page count.
    FirstPage,
    /// Page `page` of `last` is to be fetched.
    Paging { page: i32, last: i32 },
    /// Every page was visited.
    Done,
    /// The first page or the page count failed; nothing more is fetched.
    Aborted(ScrapeError),
}

/// The outcome of fetching one page.
pub enum Fetched {
    /// The page's markup, as read.
    Page(RawPage),
    /// The request failed.
    Failed,
}

/// What to do after a page was fetched.
pub struct Decision {
    pub next: CycleState,
    /// The records to reconcile, in page order.
    pub to_reconcile: Vec<Offer>,
}

/// The page to fetch in a state.
pub open spec fn pending_page(s: CycleState) -> Option<i32> {
    match s {
        CycleState::FirstPage => Some(1),
        CycleState::Paging { page, last } => Some(page),
        _ => None,
    }
}

/// The state after page `page` of `last` was handled, well or not.
pub open spec fn after_page(page: i32, last: i32) -> CycleState {
    if page < last {
        CycleState::Paging { page: (page + 1) as i32, last }
    } else {
        CycleState::Done
    }
}

pub open spec fn next_state(s: CycleState, f: Fetched) -> CycleState {
    match s {
        CycleState::FirstPage => match f {
            Fetched::Failed => CycleState::Aborted(ScrapeError::FetchFailed),
            Fetched::Page(p) => if !p.has_root {
                CycleState::Aborted(ScrapeError::MissingRootContainer)
            } else {
                match last_page_of(p.pagination) {
                    None => CycleState::Aborted(ScrapeError::PaginationNotFound),
                    Some(last) => after_page(1, last),
                }
            },
        },
        CycleState::Paging { page, last } => after_page(page, last),
        _ => s,
    }
}

pub open spec fn records_of(s: CycleState, f: Fetched) -> Seq<OfferView> {
    match f {
        Fetched::Page(p) => match s {
            CycleState::FirstPage => if p.has_root && last_page_of(p.pagination) is Some {
                articles_of(p.fragments@)
            } else {
                Seq::empty()
            },
            CycleState::Paging { .. } => if p.has_root {
                articles_of(p.fragments@)
            } else {
                Seq::empty()
            },
            _ => Seq::empty(),
        },
        Fetched::Failed => Seq::empty(),
    }
}

/// The state a cycle starts in.
pub fn start_cycle() -> (r: CycleState)
    ensures
        r == CycleState::FirstPage,
{
    CycleState::FirstPage
}

/// The page to fetch next, if any.
pub fn page_to_fetch(s: &CycleState) -> (r: Option<i32>)
    ensures
        r == pending_page(*s),
{
    match s {
        CycleState::FirstPage => Some(1),
        CycleState::Paging { page, .. } => Some(*page),
        _ => None,
    }
}

fn next_after(page: i32, last: i32) -> (r: CycleState)
    ensures
        r == after_page(page, last),
{
    if page < last {
        CycleState::Paging { page: page + 1, last }
    } else {
        CycleState::Done
    }
}

/// Decides what follows a fetched page. A failure of the first page, or of
/// its page count, aborts the cycle; a failure of a later page skips that page.
pub fn on_page_fetched(s: &CycleState, f: Fetched) -> (r: Decision)
    ensures
        r.next == next_state(*s, f),
        views(r.to_reconcile@) == records_of(*s, f),
{
    match s {
        CycleState::FirstPage => match f {
            Fetched::Failed => Decision {
                next: CycleState::Aborted(ScrapeError::FetchFailed),
                to_reconcile: Vec::new(),
            },
            Fetched::Page(p) => match extract_first_page(&p) {
                Ok((offers, last)) => Decision { next: next_after(1, last), to_reconcile: offers },
                Err(e) => {
                    let r = Decision { next: CycleState::Aborted(e), to_reconcile: Vec::new() };
                    assert(views(r.to_reconcile@) =~= Seq::empty());
                    r
                },
            },
        },
        CycleState::Paging { page, last } => {
            let next = next_after(*page, *last);
            match f {
                Fetched::Failed => {
                    let r = Decision { next, to_reconcile: Vec::new() };
                    assert(views(r.to_reconcile@) =~= Seq::empty());
                    r
                },
                Fetched::Page(p) => match extract_offers(&p) {
                    Ok(offers) => Decision { next, to_reconcile: offers },
                    Err(_) => {
                        let r = Decision { next, to_reconcile: Vec::new() };
                        assert(views(r.to_reconcile@) =~= Seq::empty());
                        r
                    },
                },
            }
        },
        _ => {
            let r = Decision { next: *s, to_reconcile: Vec::new() };
            assert(views(r.to_reconcile@) =~= Seq::empty());
            r
        },
    }
}

/// Page-count discovery gates the cycle: a first page without a pagination
/// control aborts it with nothing to reconcile and no page left to fetch, and
/// an aborted cycle stays aborted whatever is fetched.
pub proof fn lemma_missing_pagination_aborts(p: RawPage, later: Fetched)
    requires
        p.pagination is None,
    ensures
        (next_state(CycleState::FirstPage, Fetched::Page(p)) is Aborted),
        p.has_root ==> next_state(CycleState::FirstPage, Fetched::Page(p)) == CycleState::Aborted(
            ScrapeError::PaginationNotFound,
        ),
        records_of(CycleState::FirstPage, Fetched::Page(p)).len() == 0,
        (pending_page(next_state(CycleState::FirstPage, Fetched::Page(p))) is None),
        next_state(next_state(CycleState::FirstPage, Fetched::Page(p)), later) == next_state(
            CycleState::FirstPage,
            Fetched::Page(p),
        ),
{
}

/// A failed fetch of a later page skips only that page: the next page is
/// still fetched.
pub proof fn lemma_page_failure_skips(page: i32, last: i32)
    requires
        page < last,
    ensures
        next_state((CycleState::Paging { page, last }), Fetched::Failed) == (CycleState::Paging {
            page: (page + 1) as i32,
            last,
        }),
        pending_page(next_state((CycleState::Paging { page, last }), Fetched::Failed)) == Some(
            (page + 1) as i32,
        ),
        records_of((CycleState::Paging { page, last }), Fetched::Failed).len() == 0,
{
}

} // verus!
