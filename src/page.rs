//! Listing extraction over a whole result page.

use vstd::prelude::*;
use crate::numeric::{count_of_text, parse_count};
use crate::offer::{article_of, parse_article, Offer, OfferView, RawFragment, ScrapeError};

verus! {

/// What a result page's markup holds, as located by its fixed markers.
#[derive(Clone, Debug)]
pub struct RawPage {
    /// Whether the root content container is present; where it is not, the
    /// other fields are empty.
    pub has_root: bool,
    /// The listing fragments inside the root container, in page order.
    pub fragments: Vec<RawFragment>,
    /// Texts of the pagination control's entries, in order; `None` where the
    /// control is absent.
    pub pagination: Option<Vec<String>>,
}

/// The views of a sequence of listings.
pub open spec fn views(s: Seq<Offer>) -> Seq<OfferView> {
    s.map_values(|o: Offer| o@)
}

/// The listings that the fragments yield, in order; fragments that yield none
/// are left out.
pub open spec fn articles_of(frags: Seq<RawFragment>) -> Seq<OfferView>
    decreases frags.len(),
{
    if frags.len() == 0 {
        Seq::empty()
    } else {
        let rest = articles_of(frags.drop_last());
        match article_of(frags.last()) {
            Some(o) => rest.push(o),
            None => rest,
        }
    }
}

/// The last page number: the digits of the second-to-last pagination entry.
pub open spec fn last_page_of(pagination: Option<Vec<String>>) -> Option<i32> {
    match pagination {
        Some(v) => if v.len() >= 2 {
            match count_of_text(v[v.len() - 2]@, i32::MAX as nat) {
                Some(n) => Some(n as i32),
                None => None,
            }
        } else {
            None
        },
        None => None,
    }
}

/// Reads the last page number from the pagination entries' texts.
pub fn extract_last_page_number(pagination: &Option<Vec<String>>) -> (r: Result<i32, ScrapeError>)
    ensures
        match r {
            Ok(n) => last_page_of(*pagination) == Some(n),
            Err(e) => last_page_of(*pagination) is None && e == ScrapeError::PaginationNotFound,
        },
{
    match pagination {
        Some(v) => {
            if v.len() < 2 {
                return Err(ScrapeError::PaginationNotFound);
            }
            match parse_count(v[v.len() - 2].as_str(), i32::MAX as u64) {
                Some(n) => Ok(n as i32),
                None => Err(ScrapeError::PaginationNotFound),
            }
        },
        None => Err(ScrapeError::PaginationNotFound),
    }
}

/// The listings of a page, in page order; fragments that lack a required field
/// are dropped without failing the page.
pub fn extract_offers(page: &RawPage) -> (r: Result<Vec<Offer>, ScrapeError>)
    ensures
        r is Err <==> !page.has_root,
        r is Err ==> r->Err_0 == ScrapeError::MissingRootContainer,
        r is Ok ==> views(r->Ok_0@) == articles_of(page.fragments@),
{
    if !page.has_root {
        return Err(ScrapeError::MissingRootContainer);
    }
    let mut out: Vec<Offer> = Vec::new();
    let mut i: usize = 0;
    while i < page.fragments.len()
        invariant
            i <= page.fragments.len(),
            views(out@) == articles_of(page.fragments@.subrange(0, i as int)),
        decreases page.fragments.len() - i,
    {
        assert(page.fragments@.subrange(0, i as int + 1).drop_last() =~= page.fragments@.subrange(
            0,
            i as int,
        ));
        match parse_article(&page.fragments[i]) {
            Ok(o) => {
                let ghost before = out@;
                out.push(o);
                assert(out@.drop_last() =~= before);
                assert(views(out@) =~= views(before).push(o@));
            },
            Err(_) => {},
        }
        i += 1;
    }
    assert(page.fragments@.subrange(0, page.fragments.len() as int) =~= page.fragments@);
    Ok(out)
}

/// The listings of the first page together with the last page number; fails
/// where the root container or the page count is missing.
pub fn extract_first_page(page: &RawPage) -> (r: Result<(Vec<Offer>, i32), ScrapeError>)
    ensures
        match r {
            Ok((offers, last)) => page.has_root && last_page_of(page.pagination) == Some(last)
                && views(offers@) == articles_of(page.fragments@),
            Err(e) => if !page.has_root {
                e == ScrapeError::MissingRootContainer
            } else {
                last_page_of(page.pagination) is None && e == ScrapeError::PaginationNotFound
            },
        },
{
    let offers = match extract_offers(page) {
        Ok(v) => v,
        Err(e) => return Err(e),
    };
    let last = match extract_last_page_number(&page.pagination) {
        Ok(n) => n,
        Err(e) => return Err(e),
    };
    Ok((offers, last))
}

} // verus!
