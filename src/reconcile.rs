//! Reconciliation of freshly extracted listings against the persisted set.
//!
//! Identity across scrape cycles is the detail URL alone: a listing whose URL
//! is already persisted overwrites that row's mutable fields, any other is
//! inserted with a fresh id.

use vstd::prelude::*;
use crate::offer::{Offer, OfferView};
use crate::page::views;

verus! {

/// Whether some row has detail URL `u`.
pub open spec fn has_url(rows: Seq<OfferView>, u: Seq<char>) -> bool {
    exists|k: int| 0 <= k < rows.len() && (#[trigger] rows[k]).detail_url == u
}

/// No two rows share a detail URL.
pub open spec fn unique_urls(rows: Seq<OfferView>) -> bool {
    forall|i: int, j: int|
        #![trigger rows[i], rows[j]]
        0 <= i < rows.len() && 0 <= j < rows.len() && i != j ==> rows[i].detail_url
            != rows[j].detail_url
}

/// Row `r` with its mutable fields taken from `x`; id and URL are kept.
pub open spec fn overwrite(r: OfferView, x: OfferView) -> OfferView {
    OfferView {
        id: r.id,
        price: x.price,
        detail_url: r.detail_url,
        rooms: x.rooms,
        area: x.area,
        location: x.location,
        title: x.title,
        price_per_m2: x.price_per_m2,
    }
}

/// Every row with `x`'s URL overwritten by `x`.
pub open spec fn update_rows(rows: Seq<OfferView>, x: OfferView) -> Seq<OfferView> {
    rows.map_values(|r: OfferView| if r.detail_url == x.detail_url { overwrite(r, x) } else { r })
}

/// `x` as persisted under id `id`.
pub open spec fn with_id(x: OfferView, id: int) -> OfferView {
    OfferView { id: Some(id as i64), ..x }
}

/// The rows and next free id after reconciling `batch`, record by record, into
/// `rows` whose next free id is `next_id`.
pub open spec fn reconciled(rows: Seq<OfferView>, next_id: int, batch: Seq<OfferView>) -> (
    Seq<OfferView>,
    int,
)
    decreases batch.len(),
{
    if batch.len() == 0 {
        (rows, next_id)
    } else {
        let (r, n) = reconciled(rows, next_id, batch.drop_last());
        let x = batch.last();
        if has_url(r, x.detail_url) {
            (update_rows(r, x), n)
        } else {
            (r.push(with_id(x, n)), n + 1)
        }
    }
}

/// The last record of `batch` with URL `u`.
pub open spec fn last_with(batch: Seq<OfferView>, u: Seq<char>) -> Option<OfferView>
    decreases batch.len(),
{
    if batch.len() == 0 {
        None
    } else if batch.last().detail_url == u {
        Some(batch.last())
    } else {
        last_with(batch.drop_last(), u)
    }
}

/// Row `r` after every record of `batch` with its URL was applied to it.
pub open spec fn merged(r: OfferView, batch: Seq<OfferView>) -> OfferView {
    match last_with(batch, r.detail_url) {
        Some(x) => overwrite(r, x),
        None => r,
    }
}

proof fn lemma_last_with_some(batch: Seq<OfferView>, u: Seq<char>)
    ensures
        last_with(batch, u) matches Some(x) ==> x.detail_url == u,
    decreases batch.len(),
{
    if batch.len() > 0 {
        lemma_last_with_some(batch.drop_last(), u);
    }
}

proof fn lemma_update_rows_has_url(rows: Seq<OfferView>, x: OfferView, u: Seq<char>)
    ensures
        has_url(update_rows(rows, x), u) == has_url(rows, u),
{
    let r = update_rows(rows, x);
    if has_url(rows, u) {
        let k = choose|k: int| 0 <= k < rows.len() && (#[trigger] rows[k]).detail_url == u;
        assert(r[k].detail_url == u);
    }
    if has_url(r, u) {
        let k = choose|k: int| 0 <= k < r.len() && (#[trigger] r[k]).detail_url == u;
        assert(rows[k].detail_url == u);
    }
}

/// Where every URL of the batch is already persisted, reconciling only merges.
proof fn lemma_all_present(rows: Seq<OfferView>, n: int, batch: Seq<OfferView>)
    requires
        forall|i: int| 0 <= i < batch.len() ==> has_url(rows, (#[trigger] batch[i]).detail_url),
    ensures
        reconciled(rows, n, batch) == (rows.map_values(|r: OfferView| merged(r, batch)), n),
    decreases batch.len(),
{
    if batch.len() > 0 {
        let b = batch.drop_last();
        let x = batch.last();
        assert forall|i: int| 0 <= i < b.len() implies has_url(rows, (#[trigger] b[i]).detail_url) by {
            assert(b[i] == batch[i]);
        }
        lemma_all_present(rows, n, b);
        let r = rows.map_values(|q: OfferView| merged(q, b));
        assert(has_url(rows, x.detail_url)) by {
            assert(batch[batch.len() - 1] == x);
        }
        let k = choose|k: int| 0 <= k < rows.len() && (#[trigger] rows[k]).detail_url == x.detail_url;
        assert forall|j: int| 0 <= j < rows.len() implies (#[trigger] r[j]).detail_url
            == rows[j].detail_url by {
            lemma_last_with_some(b, rows[j].detail_url);
        }
        assert(r[k].detail_url == x.detail_url);
        let lhs = update_rows(r, x);
        let rhs = rows.map_values(|q: OfferView| merged(q, batch));
        assert forall|j: int| 0 <= j < rows.len() implies #[trigger] lhs[j] == rhs[j] by {
            lemma_last_with_some(b, rows[j].detail_url);
        }
        assert(lhs =~= rhs);
    }
}

/// After reconciling, every URL of the batch is persisted, and every row
/// already carries the batch's last record for its URL.
proof fn lemma_settled(rows: Seq<OfferView>, n: int, batch: Seq<OfferView>)
    ensures
        forall|i: int|
            0 <= i < batch.len() ==> has_url(
                reconciled(rows, n, batch).0,
                (#[trigger] batch[i]).detail_url,
            ),
        forall|k: int|
            0 <= k < reconciled(rows, n, batch).0.len() ==> merged(
                #[trigger] reconciled(rows, n, batch).0[k],
                batch,
            ) == reconciled(rows, n, batch).0[k],
    decreases batch.len(),
{
    if batch.len() > 0 {
        let b = batch.drop_last();
        let x = batch.last();
        lemma_settled(rows, n, b);
        let (r, m) = reconciled(rows, n, b);
        let r1 = reconciled(rows, n, batch).0;
        if has_url(r, x.detail_url) {
            assert(r1 == update_rows(r, x));
            assert forall|i: int| 0 <= i < batch.len() implies has_url(
                r1,
                (#[trigger] batch[i]).detail_url,
            ) by {
                if i < b.len() {
                    assert(b[i] == batch[i]);
                }
                lemma_update_rows_has_url(r, x, batch[i].detail_url);
            }
            assert forall|k: int| 0 <= k < r1.len() implies merged(#[trigger] r1[k], batch)
                == r1[k] by {
                lemma_last_with_some(b, r[k].detail_url);
            }
        } else {
            assert(r1 == r.push(with_id(x, m)));
            assert forall|i: int| 0 <= i < batch.len() implies has_url(
                r1,
                (#[trigger] batch[i]).detail_url,
            ) by {
                if i < b.len() {
                    assert(b[i] == batch[i]);
                    let k = choose|k: int|
                        0 <= k < r.len() && (#[trigger] r[k]).detail_url == b[i].detail_url;
                    assert(r1[k] == r[k]);
                } else {
                    assert(r1[r.len() as int].detail_url == x.detail_url);
                }
            }
            assert forall|k: int| 0 <= k < r1.len() implies merged(#[trigger] r1[k], batch)
                == r1[k] by {
                if k < r.len() {
                    assert(r1[k] == r[k]);
                    assert(r[k].detail_url != x.detail_url);
                } else {
                    assert(r1[k] == with_id(x, m));
                }
            }
        }
    }
}

/// Reconciliation is idempotent: reconciling the same batch a second time
/// leaves the rows and the next free id as the first run left them.
pub proof fn lemma_reconcile_idempotent(rows: Seq<OfferView>, next_id: int, batch: Seq<OfferView>)
    ensures
        reconciled(reconciled(rows, next_id, batch).0, reconciled(rows, next_id, batch).1, batch)
            == reconciled(rows, next_id, batch),
{
    let (r1, n1) = reconciled(rows, next_id, batch);
    lemma_settled(rows, next_id, batch);
    lemma_all_present(r1, n1, batch);
    assert(r1.map_values(|r: OfferView| merged(r, batch)) =~= r1);
}

/// Rows persisted before a reconciliation keep their place; each becomes its
/// merge with the batch, and rows added after them carry URLs that were not
/// persisted.
proof fn lemma_prefix(rows: Seq<OfferView>, n: int, batch: Seq<OfferView>)
    ensures
        reconciled(rows, n, batch).0.len() >= rows.len(),
        forall|j: int|
            0 <= j < rows.len() ==> #[trigger] reconciled(rows, n, batch).0[j] == merged(
                rows[j],
                batch,
            ),
        forall|k: int|
            rows.len() <= k < reconciled(rows, n, batch).0.len() ==> !has_url(
                rows,
                (#[trigger] reconciled(rows, n, batch).0[k]).detail_url,
            ),
    decreases batch.len(),
{
    if batch.len() > 0 {
        let b = batch.drop_last();
        let x = batch.last();
        lemma_prefix(rows, n, b);
        let (r, m) = reconciled(rows, n, b);
        let r1 = reconciled(rows, n, batch).0;
        assert forall|j: int| 0 <= j < rows.len() implies #[trigger] r1[j] == merged(
            rows[j],
            batch,
        ) by {
            lemma_last_with_some(b, rows[j].detail_url);
            if !has_url(r, x.detail_url) {
                assert(r[j].detail_url == rows[j].detail_url);
            }
        }
        if !has_url(r, x.detail_url) {
            assert forall|k: int| rows.len() <= k < r1.len() implies !has_url(
                rows,
                (#[trigger] r1[k]).detail_url,
            ) by {
                if k == r.len() {
                    if has_url(rows, x.detail_url) {
                        let j = choose|j: int|
                            0 <= j < rows.len() && (#[trigger] rows[j]).detail_url == x.detail_url;
                        lemma_last_with_some(b, rows[j].detail_url);
                        assert(r[j].detail_url == x.detail_url);
                    }
                } else {
                    assert(r1[k] == r[k]);
                }
            }
        }
    }
}

/// A record whose URL is already persisted updates that row in place: the row
/// keeps its id and URL and takes the batch's last price for that URL, and no
/// other row with that URL is added.
pub proof fn lemma_existing_url_updates(
    rows: Seq<OfferView>,
    next_id: int,
    batch: Seq<OfferView>,
    j: int,
)
    requires
        0 <= j < rows.len(),
        last_with(batch, rows[j].detail_url) is Some,
    ensures
        ({
            let r = reconciled(rows, next_id, batch).0;
            &&& r[j].id == rows[j].id
            &&& r[j].detail_url == rows[j].detail_url
            &&& r[j].price == last_with(batch, rows[j].detail_url)->0.price
            &&& forall|k: int|
                rows.len() <= k < r.len() ==> (#[trigger] r[k]).detail_url != rows[j].detail_url
        }),
{
    lemma_prefix(rows, next_id, batch);
    let r = reconciled(rows, next_id, batch).0;
    assert(r[j] == merged(rows[j], batch));
    assert forall|k: int| rows.len() <= k < r.len() implies (#[trigger] r[k]).detail_url
        != rows[j].detail_url by {
        assert(!has_url(rows, r[k].detail_url));
    }
}


/// Every row carries an id in `1..next_id`.
pub open spec fn ids_below(rows: Seq<OfferView>, next_id: int) -> bool {
    forall|k: int|
        0 <= k < rows.len() ==> (#[trigger] rows[k]).id is Some && 1 <= rows[k].id->0 < next_id
}

/// No two rows share an id.
pub open spec fn unique_ids(rows: Seq<OfferView>) -> bool {
    forall|i: int, j: int|
        #![trigger rows[i], rows[j]]
        0 <= i < rows.len() && 0 <= j < rows.len() && i != j ==> rows[i].id != rows[j].id
}

/// Unique URLs, and unique ids all below `next_id`.
pub open spec fn keys_ok(rows: Seq<OfferView>, next_id: int) -> bool {
    &&& unique_urls(rows)
    &&& unique_ids(rows)
    &&& ids_below(rows, next_id)
}

/// Two rows of a set with unique URLs differ in URL.
pub proof fn lemma_distinct_urls(rows: Seq<OfferView>, i: int, j: int)
    requires
        unique_urls(rows),
        0 <= i < rows.len(),
        0 <= j < rows.len(),
        i != j,
    ensures
        rows[i].detail_url != rows[j].detail_url,
{
}

/// Rows that keep every row's URL and id keep the keys sound.
proof fn lemma_same_keys(before: Seq<OfferView>, after: Seq<OfferView>, n: int)
    requires
        keys_ok(before, n),
        after.len() == before.len(),
        forall|k: int|
            0 <= k < before.len() ==> (#[trigger] after[k]).detail_url == before[k].detail_url
                && after[k].id == before[k].id,
    ensures
        keys_ok(after, n),
{
    assert forall|p: int, q: int|
        #![trigger after[p], after[q]]
        0 <= p < after.len() && 0 <= q < after.len() && p != q implies after[p].detail_url
        != after[q].detail_url && after[p].id != after[q].id by {
        lemma_distinct_urls(before, p, q);
        assert(unique_ids(before) ==> before[p].id != before[q].id);
    }
    assert forall|k: int| 0 <= k < after.len() implies (#[trigger] after[k]).id is Some && 1
        <= after[k].id->0 < n by {
        assert(ids_below(before, n) ==> before[k].id is Some && 1 <= before[k].id->0 < n);
    }
}

/// Appending a row with a new URL and the next id keeps the keys sound.
proof fn lemma_push_fresh(before: Seq<OfferView>, x: OfferView, n: int)
    requires
        keys_ok(before, n),
        !has_url(before, x.detail_url),
        x.id == Some(n as i64),
        n >= 1,
        n <= i64::MAX,
    ensures
        keys_ok(before.push(x), n + 1),
{
    let after = before.push(x);
    assert forall|p: int, q: int|
        #![trigger after[p], after[q]]
        0 <= p < after.len() && 0 <= q < after.len() && p != q implies after[p].detail_url
        != after[q].detail_url && after[p].id != after[q].id by {
        if p < before.len() && q < before.len() {
            lemma_distinct_urls(before, p, q);
            assert(unique_ids(before) ==> before[p].id != before[q].id);
        } else if p < before.len() {
            assert(ids_below(before, n) ==> before[p].id is Some && before[p].id->0 < n);
            assert(!(before[p].detail_url == x.detail_url));
        } else {
            assert(ids_below(before, n) ==> before[q].id is Some && before[q].id->0 < n);
            assert(!(before[q].detail_url == x.detail_url));
        }
    }
    assert forall|k: int| 0 <= k < after.len() implies (#[trigger] after[k]).id is Some && 1
        <= after[k].id->0 < n + 1 by {
        if k < before.len() {
            assert(ids_below(before, n) ==> before[k].id is Some && 1 <= before[k].id->0 < n);
        }
    }
}

/// Removing a row keeps the keys sound.
pub proof fn lemma_remove_keeps_keys(before: Seq<OfferView>, k: int, n: int)
    requires
        keys_ok(before, n),
        0 <= k < before.len(),
    ensures
        keys_ok(before.remove(k), n),
        forall|j: int|
            0 <= j < before.len() && j != k ==> (#[trigger] before[j]).detail_url
                != before[k].detail_url,
{
    let after = before.remove(k);
    assert forall|p: int, q: int|
        #![trigger after[p], after[q]]
        0 <= p < after.len() && 0 <= q < after.len() && p != q implies after[p].detail_url
        != after[q].detail_url && after[p].id != after[q].id by {
        let pp = if p < k { p } else { p + 1 };
        let qq = if q < k { q } else { q + 1 };
        lemma_distinct_urls(before, pp, qq);
        assert(unique_ids(before) ==> before[pp].id != before[qq].id);
    }
    assert forall|j: int| 0 <= j < after.len() implies (#[trigger] after[j]).id is Some && 1
        <= after[j].id->0 < n by {
        let jj = if j < k { j } else { j + 1 };
        assert(ids_below(before, n) ==> before[jj].id is Some && 1 <= before[jj].id->0 < n);
    }
    assert forall|j: int| 0 <= j < before.len() && j != k implies (#[trigger] before[j]).detail_url
        != before[k].detail_url by {
        lemma_distinct_urls(before, j, k);
    }
}

/// The persisted set: rows in insertion order, and the id the next insert gets.
pub struct Store {
    pub rows: Vec<Offer>,
    pub next_id: i64,
}

impl Store {
    /// The rows' views.
    pub open spec fn rows_view(&self) -> Seq<OfferView> {
        views(self.rows@)
    }

    /// Detail URLs are unique, every row has a distinct id in `1..next_id`, so
    /// the next id is fresh.
    pub open spec fn wf(&self) -> bool {
        &&& self.next_id >= 1
        &&& keys_ok(self.rows_view(), self.next_id as int)
    }

    /// An empty store whose first insert gets id 1.
    pub fn new() -> (r: Store)
        ensures
            r.wf(),
            r.rows@.len() == 0,
            r.next_id == 1,
    {
        Store { rows: Vec::new(), next_id: 1 }
    }

    /// Reconciles one page's listings, record by record: a listing whose URL is
    /// persisted overwrites that row's mutable fields, any other is inserted
    /// with the next id.
    pub fn reconcile(&mut self, batch: &Vec<Offer>)
        requires
            old(self).wf(),
            old(self).next_id + batch.len() <= i64::MAX,
        ensures
            final(self).wf(),
            (final(self).rows_view(), final(self).next_id as int) == reconciled(
                old(self).rows_view(),
                old(self).next_id as int,
                views(batch@),
            ),
    {
        let ghost rows0 = self.rows_view();
        let ghost n0 = self.next_id as int;
        let ghost b = views(batch@);
        let mut i: usize = 0;
        while i < batch.len()
            invariant
                i <= batch.len(),
                self.wf(),
                b == views(batch@),
                self.next_id <= n0 + i,
                n0 + batch.len() <= i64::MAX,
                (self.rows_view(), self.next_id as int) == reconciled(
                    rows0,
                    n0,
                    b.subrange(0, i as int),
                ),
            decreases batch.len() - i,
        {
            let x = &batch[i];
            assert(b.subrange(0, i as int + 1).drop_last() =~= b.subrange(0, i as int));
            assert(b.subrange(0, i as int + 1).last() == x@);
            let ghost before = self.rows_view();
            match find_url(&self.rows, &x.detail_url) {
                Some(k) => {
                    let row = Offer {
                        id: self.rows[k].id,
                        price: x.price,
                        detail_url: self.rows[k].detail_url.clone(),
                        rooms: x.rooms,
                        area: x.area,
                        location: x.location.clone(),
                        title: x.title.clone(),
                        price_per_m2: x.price_per_m2,
                    };
                    self.rows.set(k, row);
                    proof {
                        assert(has_url(before, x@.detail_url)) by {
                            assert(before[k as int].detail_url == x@.detail_url);
                        }
                        assert(self.rows_view() =~= update_rows(before, x@)) by {
                            assert forall|j: int| 0 <= j < before.len() && j != k implies before[j].detail_url != x@.detail_url by {
                                lemma_distinct_urls(before, j, k as int);
                            }
                        }
                        lemma_same_keys(before, self.rows_view(), self.next_id as int);
                    }
                },
                None => {
                    let row = Offer {
                        id: Some(self.next_id),
                        price: x.price,
                        detail_url: x.detail_url.clone(),
                        rooms: x.rooms,
                        area: x.area,
                        location: x.location.clone(),
                        title: x.title.clone(),
                        price_per_m2: x.price_per_m2,
                    };
                    self.rows.push(row);
                    self.next_id = self.next_id + 1;
                    proof {
                        assert(self.rows_view() =~= before.push(with_id(x@, self.next_id - 1)));
                        lemma_push_fresh(before, with_id(x@, self.next_id - 1), self.next_id - 1);
                    }
                },
            }
            i += 1;
        }
        assert(b.subrange(0, batch.len() as int) =~= b);
    }
}

/// The position of the row with detail URL `u`, if any.
pub fn find_url(rows: &Vec<Offer>, u: &String) -> (r: Option<usize>)
    ensures
        match r {
            Some(k) => k < rows@.len() && rows@[k as int].detail_url@ == u@,
            None => !has_url(views(rows@), u@),
        },
{
    let mut i: usize = 0;
    while i < rows.len()
        invariant
            i <= rows.len(),
            forall|k: int| 0 <= k < i ==> (#[trigger] rows@[k]).detail_url@ != u@,
        decreases rows.len() - i,
    {
        if rows[i].detail_url == *u {
            return Some(i);
        }
        i += 1;
    }
    assert forall|k: int| 0 <= k < views(rows@).len() implies (#[trigger] views(rows@)[k]).detail_url != u@ by {
        assert(rows@[k].detail_url@ != u@);
    }
    None
}

/// Whether batch record `i` is an existing listing: its URL is persisted, or an
/// earlier record of the same batch carries it.
pub open spec fn is_existing(persisted: Seq<OfferView>, batch: Seq<OfferView>, i: int) -> bool {
    has_url(persisted, batch[i].detail_url) || has_url(batch.subrange(0, i), batch[i].detail_url)
}

/// Classifies each record of a page's batch against a snapshot of the
/// persisted set: `true` for an existing listing (to update by URL), `false`
/// for a new one (to insert). A URL repeated within the batch is new only at
/// its first occurrence.
pub fn classify_batch(persisted: &Vec<Offer>, batch: &Vec<Offer>) -> (r: Vec<bool>)
    ensures
        r@.len() == batch@.len(),
        forall|i: int|
            0 <= i < batch@.len() ==> #[trigger] r@[i] == is_existing(
                views(persisted@),
                views(batch@),
                i,
            ),
{
    let mut out: Vec<bool> = Vec::new();
    let mut i: usize = 0;
    while i < batch.len()
        invariant
            i <= batch.len(),
            out@.len() == i,
            forall|j: int|
                0 <= j < i ==> #[trigger] out@[j] == is_existing(
                    views(persisted@),
                    views(batch@),
                    j,
                ),
        decreases batch.len() - i,
    {
        let known = match find_url(persisted, &batch[i].detail_url) {
            Some(k) => {
                assert(views(persisted@)[k as int].detail_url == views(batch@)[i as int].detail_url);
                true
            },
            None => {
                let mut j: usize = 0;
                let mut seen = false;
                while j < i
                    invariant
                        j <= i < batch.len(),
                        seen <==> exists|k: int| 0 <= k < j && (#[trigger] batch@[k]).detail_url@ == batch@[i as int].detail_url@,
                    decreases i - j,
                {
                    if batch[j].detail_url == batch[i].detail_url {
                        seen = true;
                    }
                    j += 1;
                }
                proof {
                    let pre = views(batch@).subrange(0, i as int);
                    if seen {
                        let k = choose|k: int| 0 <= k < i && (#[trigger] batch@[k]).detail_url@ == batch@[i as int].detail_url@;
                        assert(pre[k].detail_url == views(batch@)[i as int].detail_url);
                    }
                    if has_url(pre, views(batch@)[i as int].detail_url) {
                        let k = choose|k: int| 0 <= k < pre.len() && (#[trigger] pre[k]).detail_url == views(batch@)[i as int].detail_url;
                        assert(batch@[k].detail_url@ == batch@[i as int].detail_url@);
                    }
                }
                seen
            },
        };
        assert(known == is_existing(views(persisted@), views(batch@), i as int));
        let ghost before = out@;
        out.push(known);
        assert(forall|j: int| 0 <= j < i ==> out@[j] == before[j]);
        i += 1;
    }
    out
}

} // verus!
