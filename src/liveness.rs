//! Liveness of persisted listings: which probe outcomes evict a listing, and
//! eviction by detail URL.

use vstd::prelude::*;
use crate::offer::{Offer, OfferView};
use crate::page::views;
use crate::reconcile::{find_url, has_url, lemma_distinct_urls, lemma_remove_keeps_keys, unique_urls, Store};

verus! {

/// The status that reports a listing's page as gone.
pub const NOT_FOUND: u16 = 404;

/// What probing a listing's detail URL gave.
#[derive(Clone, Copy, Debug, PartialEq, Eq, Structural)]
pub enum ProbeOutcome {
    /// A response with this HTTP status.
    Status(u16),
    /// No response: a timeout or a connection error.
    Failed,
}

/// Only a "not found" response is evidence that a listing was removed.
pub open spec fn gone(o: ProbeOutcome) -> bool {
    o == ProbeOutcome::Status(NOT_FOUND)
}

pub fn is_gone(o: &ProbeOutcome) -> (r: bool)
    ensures
        r == gone(*o),
{
    match o {
        ProbeOutcome::Status(s) => *s == NOT_FOUND,
        ProbeOutcome::Failed => false,
    }
}

/// The detail URLs of the rows whose probe reported them gone, in row order;
/// `outcomes[i]` is the probe of `rows[i]`.
pub open spec fn dead_urls(rows: Seq<OfferView>, outcomes: Seq<ProbeOutcome>) -> Seq<Seq<char>>
    decreases rows.len(),
{
    if rows.len() == 0 || outcomes.len() != rows.len() {
        Seq::empty()
    } else {
        let rest = dead_urls(rows.drop_last(), outcomes.drop_last());
        if gone(outcomes.last()) {
            rest.push(rows.last().detail_url)
        } else {
            rest
        }
    }
}

pub open spec fn string_views(s: Seq<String>) -> Seq<Seq<char>> {
    s.map_values(|t: String| t@)
}

/// The URLs to evict after probing every listing once.
pub fn dead_offer_urls(offers: &Vec<Offer>, outcomes: &Vec<ProbeOutcome>) -> (r: Vec<String>)
    requires
        outcomes@.len() == offers@.len(),
    ensures
        string_views(r@) == dead_urls(views(offers@), outcomes@),
{
    let mut out: Vec<String> = Vec::new();
    let mut i: usize = 0;
    while i < offers.len()
        invariant
            i <= offers.len(),
            outcomes@.len() == offers@.len(),
            string_views(out@) == dead_urls(
                views(offers@).subrange(0, i as int),
                outcomes@.subrange(0, i as int),
            ),
        decreases offers.len() - i,
    {
        assert(views(offers@).subrange(0, i as int + 1).drop_last() =~= views(offers@).subrange(
            0,
            i as int,
        ));
        assert(outcomes@.subrange(0, i as int + 1).drop_last() =~= outcomes@.subrange(0, i as int));
        if is_gone(&outcomes[i]) {
            let ghost before = out@;
            out.push(offers[i].detail_url.clone());
            assert(string_views(out@) =~= string_views(before).push(offers@[i as int].detail_url@));
        }
        i += 1;
    }
    assert(views(offers@).subrange(0, offers.len() as int) =~= views(offers@));
    assert(outcomes@.subrange(0, offers.len() as int) =~= outcomes@);
    out
}

proof fn lemma_dead_urls_members(rows: Seq<OfferView>, outcomes: Seq<ProbeOutcome>, u: Seq<char>)
    requires
        outcomes.len() == rows.len(),
    ensures
        dead_urls(rows, outcomes).contains(u) <==> exists|k: int|
            0 <= k < rows.len() && (#[trigger] rows[k]).detail_url == u && gone(outcomes[k]),
    decreases rows.len(),
{
    if rows.len() > 0 {
        let r = rows.drop_last();
        let o = outcomes.drop_last();
        let n = rows.len() - 1;
        lemma_dead_urls_members(r, o, u);
        let d = dead_urls(rows, outcomes);
        let dr = dead_urls(r, o);
        let ex = exists|k: int|
            0 <= k < rows.len() && (#[trigger] rows[k]).detail_url == u && gone(outcomes[k]);
        let exr = exists|k: int| 0 <= k < r.len() && (#[trigger] r[k]).detail_url == u && gone(o[k]);
        if exr {
            let k = choose|k: int| 0 <= k < r.len() && (#[trigger] r[k]).detail_url == u && gone(o[k]);
            assert(rows[k] == r[k] && outcomes[k] == o[k]);
        }
        if ex && !exr {
            let k = choose|k: int|
                0 <= k < rows.len() && (#[trigger] rows[k]).detail_url == u && gone(outcomes[k]);
            if k < n {
                assert(r[k] == rows[k] && o[k] == outcomes[k]);
            }
            assert(k == n);
        }
        if gone(outcomes[n]) {
            assert(d == dr.push(rows[n].detail_url));
            if dr.contains(u) {
                let i = choose|i: int| 0 <= i < dr.len() && dr[i] == u;
                assert(d[i] == u);
            }
            if rows[n].detail_url == u {
                assert(d[dr.len() as int] == u);
            }
            if d.contains(u) {
                let i = choose|i: int| 0 <= i < d.len() && d[i] == u;
                if i < dr.len() {
                    assert(dr[i] == u);
                } else {
                    assert(rows[n].detail_url == u);
                }
            }
        } else {
            assert(d == dr);
        }
    }
}

/// A listing is evicted exactly when its own probe reported it gone: its URL
/// is among those to evict if and only if its probe gave "not found"; any other
/// status, or a failed probe, keeps it.
pub proof fn lemma_liveness_eviction(rows: Seq<OfferView>, outcomes: Seq<ProbeOutcome>, i: int)
    requires
        unique_urls(rows),
        outcomes.len() == rows.len(),
        0 <= i < rows.len(),
    ensures
        dead_urls(rows, outcomes).contains(rows[i].detail_url) <==> gone(outcomes[i]),
{
    lemma_dead_urls_members(rows, outcomes, rows[i].detail_url);
    if dead_urls(rows, outcomes).contains(rows[i].detail_url) {
        let k = choose|k: int|
            0 <= k < rows.len() && (#[trigger] rows[k]).detail_url == rows[i].detail_url && gone(
                outcomes[k],
            );
        if k != i {
            lemma_distinct_urls(rows, k, i);
        }
    }
}

impl Store {
    /// Deletes the listing with detail URL `u`, if one is persisted.
    pub fn evict(&mut self, u: &String)
        requires
            old(self).wf(),
        ensures
            final(self).wf(),
            final(self).next_id == old(self).next_id,
            !has_url(final(self).rows_view(), u@),
            has_url(old(self).rows_view(), u@) ==> exists|k: int|
                0 <= k < old(self).rows_view().len() && (#[trigger] old(
                    self,
                ).rows_view()[k]).detail_url == u@ && final(self).rows_view() == old(
                    self,
                ).rows_view().remove(k),
            !has_url(old(self).rows_view(), u@) ==> final(self).rows_view() == old(
                self,
            ).rows_view(),
    {
        match find_url(&self.rows, u) {
            Some(k) => {
                let ghost before = self.rows_view();
                self.rows.remove(k);
                proof {
                    assert(self.rows_view() =~= before.remove(k as int));
                    lemma_remove_keeps_keys(before, k as int, self.next_id as int);
                    if has_url(self.rows_view(), u@) {
                        let p = choose|p: int|
                            0 <= p < self.rows_view().len() && (#[trigger] self.rows_view()[p]).detail_url == u@;
                        let pp = if p < k { p } else { p + 1 };
                        assert(before[pp].detail_url == u@);
                    }
                }
            },
            None => {},
        }
    }
}

} // verus!
