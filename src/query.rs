//! Filtered, price-ordered reads over the persisted set.

use vstd::prelude::*;
use vstd::multiset::Multiset;
use crate::numeric::chars_of;
use crate::offer::{Offer, OfferView};
use crate::page::views;

verus! {

broadcast use vstd::seq_lib::group_to_multiset_ensures, vstd::seq_lib::to_multiset_insert, vstd::multiset::group_multiset_axioms;

/// Optional predicates of a read; an absent one imposes nothing. `price` is
/// an upper bound in hundredths; `exclude` turns the `location` match into a
/// non-match, and is ignored without a `location`.
#[derive(Clone, Debug)]
pub struct OfferParams {
    pub id: Option<i64>,
    pub rooms: Option<i16>,
    pub price: Option<u64>,
    pub location: Option<String>,
    pub exclude: Option<bool>,
}

impl Default for OfferParams {
    fn default() -> (r: Self)
        ensures
            r.id is None,
            r.rooms is None,
            r.price is None,
            r.location is None,
            r.exclude is None,
    {
        OfferParams { id: None, rooms: None, price: None, location: None, exclude: None }
    }
}

/// Whether `needle` occurs in `hay` as a contiguous run.
pub open spec fn contains_text(hay: Seq<char>, needle: Seq<char>) -> bool {
    exists|i: int|
        0 <= i && i + needle.len() <= hay.len() && #[trigger] hay.subrange(i, i + needle.len())
            == needle
}

/// Whether a listing meets every predicate supplied.
pub open spec fn matches(params: OfferParams, o: OfferView) -> bool {
    &&& (params.id matches Some(id) ==> o.id == Some(id))
    &&& (params.rooms matches Some(n) ==> o.rooms == n)
    &&& (params.price matches Some(p) ==> o.price <= p)
    &&& (params.location matches Some(l) ==> if params.exclude == Some(true) {
        !contains_text(o.location, l@)
    } else {
        contains_text(o.location, l@)
    })
}

/// The listings of `s` that meet the predicates, in order.
pub open spec fn matching(params: OfferParams, s: Seq<OfferView>) -> Seq<OfferView>
    decreases s.len(),
{
    if s.len() == 0 {
        Seq::empty()
    } else if matches(params, s.last()) {
        matching(params, s.drop_last()).push(s.last())
    } else {
        matching(params, s.drop_last())
    }
}

/// Highest price first.
pub open spec fn by_price_desc(s: Seq<OfferView>) -> bool {
    forall|i: int, j: int| 0 <= i < j < s.len() ==> s[i].price >= s[j].price
}

pub fn text_contains(hay: &Vec<char>, needle: &Vec<char>) -> (r: bool)
    ensures
        r == contains_text(hay@, needle@),
{
    let n = needle.len();
    if n > hay.len() {
        return false;
    }
    let mut i: usize = 0;
    while i <= hay.len() - n
        invariant
            n == needle@.len(),
            n <= hay.len(),
            i <= hay.len(),
            forall|k: int| 0 <= k < i ==> #[trigger] hay@.subrange(k, k + n) != needle@,
        decreases hay.len() - i,
    {
        let mut j: usize = 0;
        let mut same = true;
        while j < n
            invariant
                n == needle@.len(),
                i + n <= hay.len(),
                j <= n,
                same <==> forall|t: int| 0 <= t < j ==> hay@[i + t] == needle@[t],
            decreases n - j,
        {
            if hay[i + j] != needle[j] {
                same = false;
            }
            j += 1;
        }
        if same {
            assert(hay@.subrange(i as int, i + n) =~= needle@);
            return true;
        }
        proof {
            let t = choose|t: int| 0 <= t < n && hay@[i + t] != needle@[t];
            assert(hay@.subrange(i as int, i + n)[t] != needle@[t]);
        }
        i += 1;
    }
    assert forall|k: int| 0 <= k && k + n <= hay@.len() implies #[trigger] hay@.subrange(k, k + n)
        != needle@ by {
        assert(k < i);
    }
    false
}

/// Whether a listing meets every predicate supplied.
pub fn offer_matches(params: &OfferParams, o: &Offer) -> (r: bool)
    ensures
        r == matches(*params, o@),
{
    if let Some(id) = params.id {
        if o.id != Some(id) {
            return false;
        }
    }
    if let Some(n) = params.rooms {
        if o.rooms != n {
            return false;
        }
    }
    if let Some(p) = params.price {
        if o.price > p {
            return false;
        }
    }
    match &params.location {
        Some(l) => {
            let hay = chars_of(o.location.as_str());
            let needle = chars_of(l.as_str());
            let found = text_contains(&hay, &needle);
            let exclude = match params.exclude {
                Some(e) => e,
                None => false,
            };
            if exclude {
                !found
            } else {
                found
            }
        },
        None => true,
    }
}

/// The listings that meet every supplied predicate, highest price first.
/// With no predicate supplied every listing is returned.
pub fn filter_offers(params: &OfferParams, offers: Vec<Offer>) -> (r: Vec<Offer>)
    ensures
        views(r@).to_multiset() == matching(*params, views(offers@)).to_multiset(),
        by_price_desc(views(r@)),
{
    let ghost all = views(offers@);
    let mut rest = offers;
    let mut out: Vec<Offer> = Vec::new();
    assert(views(out@) =~= Seq::<OfferView>::empty());
    assert(views(out@).to_multiset() =~= Multiset::empty());
    assert(views(out@).to_multiset().add(matching(*params, views(rest@)).to_multiset())
        =~= matching(*params, all).to_multiset());
    while rest.len() > 0
        invariant
            views(out@).to_multiset().add(matching(*params, views(rest@)).to_multiset())
                == matching(*params, all).to_multiset(),
            by_price_desc(views(out@)),
        decreases rest.len(),
    {
        let ghost before_rest = views(rest@);
        let o = rest.pop().unwrap();
        assert(before_rest.drop_last() =~= views(rest@));
        assert(before_rest.last() == o@);
        if offer_matches(params, &o) {
            let mut pos: usize = 0;
            while pos < out.len() && out[pos].price >= o.price
                invariant
                    pos <= out.len(),
                    forall|k: int| 0 <= k < pos ==> (#[trigger] out@[k]).price >= o.price,
                decreases out.len() - pos,
            {
                pos += 1;
            }
            let ghost before_out = views(out@);
            out.insert(pos, o);
            assert(views(out@) =~= before_out.insert(pos as int, o@));
            assert(views(out@).to_multiset() == before_out.to_multiset().insert(o@));
            assert(matching(*params, before_rest) == matching(*params, views(rest@)).push(o@));
            assert(by_price_desc(views(out@))) by {
                assert forall|i: int, j: int|
                    0 <= i < j < views(out@).len() implies views(out@)[i].price
                    >= views(out@)[j].price by {
                    if j < pos {
                    } else if j == pos {
                        assert(out@[i].price >= o.price);
                    } else if i == pos {
                        assert(before_out[j - 1].price < o.price || j - 1 >= pos);
                        if j - 1 > pos as int {
                            assert(before_out[pos as int].price >= before_out[j - 1].price);
                        }
                    }
                }
            }
            assert(views(out@).to_multiset().add(matching(*params, views(rest@)).to_multiset())
                =~= before_out.to_multiset().add(matching(*params, before_rest).to_multiset()));
        } else {
            assert(matching(*params, before_rest) == matching(*params, views(rest@)));
        }
    }
    assert(views(rest@) =~= Seq::<OfferView>::empty());
    assert(matching(*params, views(rest@)) =~= Seq::<OfferView>::empty());
    assert(views(out@).to_multiset().add(Multiset::empty()) =~= views(out@).to_multiset());
    out
}

} // verus!
