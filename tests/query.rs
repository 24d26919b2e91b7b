use otodom_scraper::numeric::chars_of;
use otodom_scraper::offer::Offer;
use otodom_scraper::query::{filter_offers, offer_matches, text_contains, OfferParams};

fn offer(id: i64, rooms: i16, price: u64, location: &str) -> Offer {
    Offer {
        id: Some(id),
        price,
        detail_url: format!("https://example.test/{}", id),
        rooms,
        area: 4_000,
        location: location.to_string(),
        title: format!("Offer {}", id),
        price_per_m2: None,
    }
}

fn rows() -> Vec<Offer> {
    vec![
        offer(1, 2, 40_000_000, "Downtown, Warsaw"),
        offer(2, 2, 60_000_000, "Downtown, Warsaw"),
        offer(3, 3, 30_000_000, "Downtown, Warsaw"),
        offer(4, 2, 45_000_000, "Suburbs"),
        offer(5, 2, 50_000_000, "Old Downtown"),
        offer(6, 2, 20_000_000, "Harbour"),
    ]
}

fn ids(v: &[Offer]) -> Vec<i64> {
    v.iter().map(|o| o.id.unwrap()).collect()
}

#[test]
fn composed_query_including_location() {
    let params = OfferParams {
        id: None,
        rooms: Some(2),
        price: Some(50_000_000),
        location: Some("Downtown".to_string()),
        exclude: Some(false),
    };
    assert_eq!(ids(&filter_offers(&params, rows())), vec![5, 1]);
}

#[test]
fn composed_query_excluding_location() {
    let params = OfferParams {
        id: None,
        rooms: Some(2),
        price: Some(50_000_000),
        location: Some("Downtown".to_string()),
        exclude: Some(true),
    };
    assert_eq!(ids(&filter_offers(&params, rows())), vec![4, 6]);
}

#[test]
fn location_without_exclude_means_containing() {
    let params = OfferParams {
        location: Some("Downtown".to_string()),
        ..OfferParams::default()
    };
    assert_eq!(ids(&filter_offers(&params, rows())), vec![2, 5, 1, 3]);
}

#[test]
fn exclude_without_location_imposes_nothing() {
    let params = OfferParams { exclude: Some(true), ..OfferParams::default() };
    assert_eq!(filter_offers(&params, rows()).len(), 6);
}

#[test]
fn empty_query_returns_all_by_price_descending() {
    assert_eq!(ids(&filter_offers(&OfferParams::default(), rows())), vec![2, 5, 4, 1, 3, 6]);
    assert!(filter_offers(&OfferParams::default(), vec![]).is_empty());
}

#[test]
fn id_predicate_matches_exactly() {
    let params = OfferParams { id: Some(3), ..OfferParams::default() };
    assert_eq!(ids(&filter_offers(&params, rows())), vec![3]);
}

#[test]
fn price_bound_is_inclusive() {
    let params = OfferParams { price: Some(30_000_000), ..OfferParams::default() };
    assert_eq!(ids(&filter_offers(&params, rows())), vec![3, 6]);
}

#[test]
fn substring_search() {
    assert!(text_contains(&chars_of("Old Downtown"), &chars_of("Downtown")));
    assert!(text_contains(&chars_of("abc"), &chars_of("")));
    assert!(!text_contains(&chars_of("Down"), &chars_of("Downtown")));
    assert!(!text_contains(&chars_of("downtown"), &chars_of("Downtown")));
}

#[test]
fn single_offer_match() {
    let o = offer(9, 2, 10, "Centrum");
    assert!(offer_matches(&OfferParams::default(), &o));
    assert!(!offer_matches(&OfferParams { rooms: Some(3), ..OfferParams::default() }, &o));
}
