//! The listing record, its error taxonomy, and per-field extraction from one
//! listing fragment.

use vstd::prelude::*;
use vstd::string::*;
use crate::numeric::{amount_of_text, count_of_text, parse_amount, parse_count};

verus! {

/// Host that relative listing links on result pages are resolved against.
pub const LISTING_HOST: &'static str = "https://www.otodom.pl";

/// Largest room count a listing can carry.
pub const MAX_ROOMS: u64 = 32767;

/// One real-estate offer. Amounts are in hundredths: `price` of the currency
/// unit, `area` of a square meter, `price_per_m2` of the currency unit per
/// square meter.
#[derive(Clone, Debug)]
pub struct Offer {
    pub id: Option<i64>,
    pub price: u64,
    pub detail_url: String,
    pub rooms: i16,
    pub area: u64,
    pub location: String,
    pub title: String,
    pub price_per_m2: Option<u128>,
}

pub ghost struct OfferView {
    pub id: Option<i64>,
    pub price: u64,
    pub detail_url: Seq<char>,
    pub rooms: i16,
    pub area: u64,
    pub location: Seq<char>,
    pub title: Seq<char>,
    pub price_per_m2: Option<u128>,
}

impl View for Offer {
    type V = OfferView;

    open spec fn view(&self) -> OfferView {
        OfferView {
            id: self.id,
            price: self.price,
            detail_url: self.detail_url@,
            rooms: self.rooms,
            area: self.area,
            location: self.location@,
            title: self.title@,
            price_per_m2: self.price_per_m2,
        }
    }
}

/// A field of a listing fragment.
#[derive(Clone, Copy, Debug, PartialEq, Eq, Structural)]
pub enum Field {
    Price,
    Url,
    Rooms,
    Area,
    Location,
    Title,
}

/// What can go wrong while scraping.
#[derive(Clone, Copy, Debug, PartialEq, Eq, Structural)]
pub enum ScrapeError {
    /// The page could not be fetched.
    FetchFailed,
    /// A required field of a fragment could not be read.
    ExtractionFailed(Field),
    /// The page has no root content container.
    MissingRootContainer,
    /// The page has no pagination control, or it lacks its last-page entry.
    PaginationNotFound,
}

/// The texts that a listing fragment's markup holds, as located by its fixed
/// markers; `None` where the marker is absent.
#[derive(Clone, Debug)]
pub struct RawFragment {
    /// Text of the title paragraph.
    pub title: Option<String>,
    /// Text of the price element in the fragment's header.
    pub price_text: Option<String>,
    /// `href` of the listing link; `None` where the link or its `href` is absent.
    pub href: Option<String>,
    /// Text of the address paragraph.
    pub location: Option<String>,
    /// Texts of the entries of the specification list, in order (rooms, then
    /// area); `None` where the list is absent.
    pub specs: Option<Vec<String>>,
}

pub open spec fn title_of(raw: RawFragment) -> Option<Seq<char>> {
    match raw.title {
        Some(t) => Some(t@),
        None => None,
    }
}

/// An amount that is read and positive.
pub open spec fn positive(a: Option<u64>) -> Option<u64> {
    match a {
        Some(v) => if v > 0 {
            Some(v)
        } else {
            None
        },
        None => None,
    }
}

pub open spec fn price_of(raw: RawFragment) -> Option<u64> {
    match raw.price_text {
        Some(t) => positive(amount_of_text(t@)),
        None => None,
    }
}

pub open spec fn url_of(raw: RawFragment) -> Option<Seq<char>> {
    match raw.href {
        Some(h) => Some(LISTING_HOST@ + h@),
        None => None,
    }
}

pub open spec fn location_of(raw: RawFragment) -> Option<Seq<char>> {
    match raw.location {
        Some(t) => Some(t@),
        None => None,
    }
}

pub open spec fn rooms_of(raw: RawFragment) -> Option<i16> {
    match raw.specs {
        Some(v) => if v.len() >= 1 {
            match count_of_text(v[0]@, MAX_ROOMS as nat) {
                Some(n) => Some(n as i16),
                None => None,
            }
        } else {
            None
        },
        None => None,
    }
}

pub open spec fn area_of(raw: RawFragment) -> Option<u64> {
    match raw.specs {
        Some(v) => if v.len() >= 2 {
            positive(amount_of_text(v[1]@))
        } else {
            None
        },
        None => None,
    }
}

/// Price per square meter in hundredths, rounded down.
pub open spec fn per_m2(price: u64, area: u64) -> u128 {
    ((price as int * 100) / area as int) as u128
}

/// The first required field, in the order price, url, rooms, area, location,
/// title, that the fragment lacks.
pub open spec fn first_missing(raw: RawFragment) -> Option<Field> {
    if price_of(raw) is None {
        Some(Field::Price)
    } else if url_of(raw) is None {
        Some(Field::Url)
    } else if rooms_of(raw) is None {
        Some(Field::Rooms)
    } else if area_of(raw) is None {
        Some(Field::Area)
    } else if location_of(raw) is None {
        Some(Field::Location)
    } else if title_of(raw) is None {
        Some(Field::Title)
    } else {
        None
    }
}

/// The listing a fragment yields: every required field present.
pub open spec fn article_of(raw: RawFragment) -> Option<OfferView> {
    if first_missing(raw) is None {
        Some(
            OfferView {
                id: None,
                price: price_of(raw)->0,
                detail_url: url_of(raw)->0,
                rooms: rooms_of(raw)->0,
                area: area_of(raw)->0,
                location: location_of(raw)->0,
                title: title_of(raw)->0,
                price_per_m2: Some(per_m2(price_of(raw)->0, area_of(raw)->0)),
            },
        )
    } else {
        None
    }
}

pub fn extract_title_from_element(raw: &RawFragment) -> (r: Result<String, ScrapeError>)
    ensures
        match r {
            Ok(t) => title_of(*raw) == Some(t@),
            Err(e) => title_of(*raw) is None && e == ScrapeError::ExtractionFailed(Field::Title),
        },
{
    match &raw.title {
        Some(t) => Ok(t.clone()),
        None => Err(ScrapeError::ExtractionFailed(Field::Title)),
    }
}

pub fn extract_price_from_element(raw: &RawFragment) -> (r: Result<u64, ScrapeError>)
    ensures
        match r {
            Ok(p) => price_of(*raw) == Some(p),
            Err(e) => price_of(*raw) is None && e == ScrapeError::ExtractionFailed(Field::Price),
        },
{
    match &raw.price_text {
        Some(t) => match parse_amount(t.as_str()) {
            Some(p) => if p > 0 {
                Ok(p)
            } else {
                Err(ScrapeError::ExtractionFailed(Field::Price))
            },
            None => Err(ScrapeError::ExtractionFailed(Field::Price)),
        },
        None => Err(ScrapeError::ExtractionFailed(Field::Price)),
    }
}

pub fn extract_detail_url_from_element(raw: &RawFragment) -> (r: Result<String, ScrapeError>)
    ensures
        match r {
            Ok(u) => url_of(*raw) == Some(u@),
            Err(e) => url_of(*raw) is None && e == ScrapeError::ExtractionFailed(Field::Url),
        },
{
    match &raw.href {
        Some(h) => Ok(String::from_str(LISTING_HOST).concat(h.as_str())),
        None => Err(ScrapeError::ExtractionFailed(Field::Url)),
    }
}

pub fn extract_location_from_element(raw: &RawFragment) -> (r: Result<String, ScrapeError>)
    ensures
        match r {
            Ok(t) => location_of(*raw) == Some(t@),
            Err(e) => location_of(*raw) is None && e == ScrapeError::ExtractionFailed(
                Field::Location,
            ),
        },
{
    match &raw.location {
        Some(t) => Ok(t.clone()),
        None => Err(ScrapeError::ExtractionFailed(Field::Location)),
    }
}

pub fn extract_rooms_from_element(raw: &RawFragment) -> (r: Result<i16, ScrapeError>)
    ensures
        match r {
            Ok(n) => rooms_of(*raw) == Some(n),
            Err(e) => rooms_of(*raw) is None && e == ScrapeError::ExtractionFailed(Field::Rooms),
        },
{
    match &raw.specs {
        Some(v) => {
            if v.len() < 1 {
                return Err(ScrapeError::ExtractionFailed(Field::Rooms));
            }
            match parse_count(v[0].as_str(), MAX_ROOMS) {
                Some(n) => Ok(n as i16),
                None => Err(ScrapeError::ExtractionFailed(Field::Rooms)),
            }
        },
        None => Err(ScrapeError::ExtractionFailed(Field::Rooms)),
    }
}

pub fn extract_area_from_element(raw: &RawFragment) -> (r: Result<u64, ScrapeError>)
    ensures
        match r {
            Ok(a) => area_of(*raw) == Some(a),
            Err(e) => area_of(*raw) is None && e == ScrapeError::ExtractionFailed(Field::Area),
        },
{
    match &raw.specs {
        Some(v) => {
            if v.len() < 2 {
                return Err(ScrapeError::ExtractionFailed(Field::Area));
            }
            match parse_amount(v[1].as_str()) {
                Some(a) => if a > 0 {
                    Ok(a)
                } else {
                    Err(ScrapeError::ExtractionFailed(Field::Area))
                },
                None => Err(ScrapeError::ExtractionFailed(Field::Area)),
            }
        },
        None => Err(ScrapeError::ExtractionFailed(Field::Area)),
    }
}

/// Price per square meter in hundredths, rounded down.
pub fn get_price_per_m2(price: u64, area: u64) -> (r: u128)
    requires
        area > 0,
    ensures
        r == per_m2(price, area),
{
    assert((price as u128) * 100 <= u64::MAX as u128 * 100);
    (price as u128) * 100 / (area as u128)
}

/// Builds a listing from one fragment. Every field is read independently; the
/// fragment yields a listing only where all six required fields were read, and
/// otherwise fails naming the first one missing.
pub fn parse_article(raw: &RawFragment) -> (r: Result<Offer, ScrapeError>)
    ensures
        r is Ok <==> article_of(*raw) is Some,
        r is Ok ==> article_of(*raw) == Some(r->Ok_0@),
        r is Err ==> r->Err_0 == ScrapeError::ExtractionFailed(first_missing(*raw)->0),
{
    let price = extract_price_from_element(raw);
    let detail_url = extract_detail_url_from_element(raw);
    let rooms = extract_rooms_from_element(raw);
    let area = extract_area_from_element(raw);
    let location = extract_location_from_element(raw);
    let title = extract_title_from_element(raw);
    let price_per_m2 = match (&price, &area) {
        (Ok(p), Ok(a)) => Some(get_price_per_m2(*p, *a)),
        _ => None,
    };
    let price = match price {
        Ok(v) => v,
        Err(e) => return Err(e),
    };
    let detail_url = match detail_url {
        Ok(v) => v,
        Err(e) => return Err(e),
    };
    let rooms = match rooms {
        Ok(v) => v,
        Err(e) => return Err(e),
    };
    let area = match area {
        Ok(v) => v,
        Err(e) => return Err(e),
    };
    let location = match location {
        Ok(v) => v,
        Err(e) => return Err(e),
    };
    let title = match title {
        Ok(v) => v,
        Err(e) => return Err(e),
    };
    Ok(Offer { id: None, price, detail_url, rooms, area, location, title, price_per_m2 })
}


/// A fragment yields a listing only with all six required fields, each amount
/// positive; every listing it yields carries its price per square meter.
pub proof fn lemma_fragment_completeness(raw: RawFragment)
    ensures
        (price_of(raw) is None || url_of(raw) is None || rooms_of(raw) is None || area_of(raw) is None
            || location_of(raw) is None || title_of(raw) is None) ==> (article_of(raw) is None),
        (article_of(raw) matches Some(o) ==> o.price > 0 && o.area > 0 && o.price_per_m2 == Some(
            per_m2(o.price, o.area),
        )),
{
}

} // verus!
