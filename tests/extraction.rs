use otodom_scraper::dom::{read_fragment, read_page};
use otodom_scraper::numeric::{parse_amount, parse_count};
use otodom_scraper::offer::{get_price_per_m2, parse_article, Field, RawFragment, ScrapeError};
use otodom_scraper::page::{extract_first_page, extract_last_page_number, extract_offers};

const PAGE: &str = r#"<html><body><div id="__next">
<article data-cy="listing-item">
  <a data-testid="listing-item-link" href="/pl/oferta/abc">link</a>
  <div data-testid="listing-item-header"><span>419&nbsp;000&nbsp;zł</span></div>
  <p data-cy="listing-item-title">Sunny flat</p>
  <p data-testid="advert-card-address">Warszawa, Downtown</p>
  <div data-testid="advert-card-specs-list"><dl><dt>Rooms</dt><dd>3 pokoje</dd><dt>Area</dt><dd>38.5 m²</dd></dl></div>
</article>
<article data-cy="listing-item">
  <a data-testid="listing-item-link" href="/pl/oferta/def">link</a>
  <div data-testid="listing-item-header"><span>500 000 zł</span></div>
  <p data-testid="advert-card-address">Krakow</p>
  <div data-testid="advert-card-specs-list"><dl><dd>2 pokoje</dd><dd>50 m²</dd></dl></div>
</article>
<ul data-testid="frontend.search.base-pagination.nexus-pagination"><li>1</li><li>2</li><li>17</li><li>next</li></ul>
</div></body></html>"#;

fn fragment() -> RawFragment {
    RawFragment {
        title: Some("Sunny flat".to_string()),
        price_text: Some("419\u{a0}000\u{a0}zł".to_string()),
        href: Some("/pl/oferta/abc".to_string()),
        location: Some("Warszawa, Downtown".to_string()),
        specs: Some(vec!["3 pokoje".to_string(), "38.5 m²".to_string()]),
    }
}

#[test]
fn price_with_non_breaking_spaces_and_currency() {
    assert_eq!(parse_amount("419\u{a0}000\u{a0}zł"), Some(41_900_000));
}

#[test]
fn price_with_thousands_separator_spaces() {
    assert_eq!(parse_amount("1 250 000 zł"), Some(125_000_000));
}

#[test]
fn comma_is_a_decimal_separator() {
    assert_eq!(parse_amount("38,5 m²"), Some(3_850));
    assert_eq!(parse_amount("38.57 m²"), Some(3_857));
    assert_eq!(parse_amount("38.579"), Some(3_857));
}

#[test]
fn amount_without_digits_or_with_two_separators_fails() {
    assert_eq!(parse_amount("zł"), None);
    assert_eq!(parse_amount(""), None);
    assert_eq!(parse_amount("1.2.3"), None);
}

#[test]
fn amount_too_large_fails() {
    assert_eq!(parse_amount("184467440737095517"), None);
    assert_eq!(parse_amount("184467440737095516.16"), None);
    assert_eq!(parse_amount("184467440737095516.15"), Some(u64::MAX));
}

#[test]
fn count_reads_digits_only() {
    assert_eq!(parse_count("3 pokoje", 32767), Some(3));
    assert_eq!(parse_count("pokoje", 32767), None);
    assert_eq!(parse_count("40000", 32767), None);
    assert_eq!(parse_count("32767", 32767), Some(32767));
}

#[test]
fn price_per_square_meter() {
    assert_eq!(get_price_per_m2(41_900_000, 3_850), 1_088_311);
    assert_eq!(get_price_per_m2(100, 1), 10_000);
}

#[test]
fn complete_fragment_yields_listing() {
    let o = parse_article(&fragment()).unwrap();
    assert_eq!(o.id, None);
    assert_eq!(o.price, 41_900_000);
    assert_eq!(o.detail_url, "https://www.otodom.pl/pl/oferta/abc");
    assert_eq!(o.rooms, 3);
    assert_eq!(o.area, 3_850);
    assert_eq!(o.location, "Warszawa, Downtown");
    assert_eq!(o.title, "Sunny flat");
    assert_eq!(o.price_per_m2, Some(1_088_311));
}

#[test]
fn fragment_missing_any_required_field_yields_nothing() {
    let mut f = fragment();
    f.title = None;
    assert_eq!(parse_article(&f).err(), Some(ScrapeError::ExtractionFailed(Field::Title)));
    let mut f = fragment();
    f.href = None;
    assert_eq!(parse_article(&f).err(), Some(ScrapeError::ExtractionFailed(Field::Url)));
    let mut f = fragment();
    f.location = None;
    assert_eq!(parse_article(&f).err(), Some(ScrapeError::ExtractionFailed(Field::Location)));
    let mut f = fragment();
    f.price_text = Some("zł".to_string());
    assert_eq!(parse_article(&f).err(), Some(ScrapeError::ExtractionFailed(Field::Price)));
    let mut f = fragment();
    f.specs = Some(vec!["3 pokoje".to_string()]);
    assert_eq!(parse_article(&f).err(), Some(ScrapeError::ExtractionFailed(Field::Area)));
    let mut f = fragment();
    f.specs = None;
    assert_eq!(parse_article(&f).err(), Some(ScrapeError::ExtractionFailed(Field::Rooms)));
}

#[test]
fn first_missing_field_is_reported() {
    let mut f = fragment();
    f.price_text = None;
    f.title = None;
    assert_eq!(parse_article(&f).err(), Some(ScrapeError::ExtractionFailed(Field::Price)));
}

#[test]
fn zero_amounts_fail_extraction() {
    let mut f = fragment();
    f.specs = Some(vec!["3".to_string(), "0 m²".to_string()]);
    assert_eq!(parse_article(&f).err(), Some(ScrapeError::ExtractionFailed(Field::Area)));
    let mut f = fragment();
    f.price_text = Some("0,00 zł".to_string());
    assert_eq!(parse_article(&f).err(), Some(ScrapeError::ExtractionFailed(Field::Price)));
}

#[test]
fn last_page_is_second_to_last_entry() {
    let entries = Some(vec!["1".to_string(), "2".to_string(), "17".to_string(), "next".to_string()]);
    assert_eq!(extract_last_page_number(&entries), Ok(17));
}

#[test]
fn missing_pagination_is_reported() {
    assert_eq!(extract_last_page_number(&None), Err(ScrapeError::PaginationNotFound));
    assert_eq!(
        extract_last_page_number(&Some(vec!["1".to_string()])),
        Err(ScrapeError::PaginationNotFound)
    );
}

#[test]
fn page_markup_is_read_and_extracted() {
    let page = read_page(PAGE);
    assert!(page.has_root);
    assert_eq!(page.fragments.len(), 2);
    assert_eq!(page.fragments[0].specs, Some(vec!["3 pokoje".to_string(), "38.5 m²".to_string()]));
    assert_eq!(page.fragments[0].price_text.as_deref(), Some("419\u{a0}000\u{a0}zł"));
    assert_eq!(
        page.pagination,
        Some(vec!["1".to_string(), "2".to_string(), "17".to_string(), "next".to_string()])
    );
    assert_eq!(page.fragments[0].href.as_deref(), Some("/pl/oferta/abc"));
    assert_eq!(page.fragments[1].title, None);
    let offers = extract_offers(&page).unwrap();
    assert_eq!(offers.len(), 1);
    assert_eq!(offers[0].price, 41_900_000);
    assert_eq!(offers[0].detail_url, "https://www.otodom.pl/pl/oferta/abc");
    assert_eq!(offers[0].rooms, 3);
    assert_eq!(offers[0].area, 3_850);
    assert_eq!(offers[0].title, "Sunny flat");
    assert_eq!(offers[0].location, "Warszawa, Downtown");
    let (first, last) = extract_first_page(&page).unwrap();
    assert_eq!(first.len(), 1);
    assert_eq!(last, 17);
}

#[test]
fn page_without_root_container_fails() {
    let page = read_page("<html><body><div id=\"other\"></div></body></html>");
    assert!(!page.has_root);
    assert_eq!(extract_offers(&page).err(), Some(ScrapeError::MissingRootContainer));
    assert_eq!(extract_first_page(&page).err(), Some(ScrapeError::MissingRootContainer));
}

#[test]
fn page_without_pagination_fails_discovery() {
    let page = read_page("<html><body><div id=\"__next\"><p>none</p></div></body></html>");
    assert!(page.has_root);
    assert_eq!(page.pagination, None);
    assert_eq!(extract_first_page(&page).err(), Some(ScrapeError::PaginationNotFound));
}

#[test]
fn fragment_markup_is_read_field_by_field() {
    let f = read_fragment(
        r#"<article data-cy="listing-item"><p data-cy="listing-item-title">A <b>big</b> flat</p>
        <a data-testid="listing-item-link">no link</a></article>"#,
    );
    assert_eq!(f.title.as_deref(), Some("A  big  flat"));
    assert_eq!(f.href, None);
    assert_eq!(f.price_text, None);
    assert_eq!(f.location, None);
    assert_eq!(f.specs, None);
}

#[test]
fn pagination_outside_root_is_not_read() {
    let page = read_page(
        r#"<html><body><div id="__next"><p>x</p></div>
        <ul data-testid="frontend.search.base-pagination.nexus-pagination"><li>1</li><li>9</li><li>n</li></ul>
        </body></html>"#,
    );
    assert!(page.has_root);
    assert_eq!(page.pagination, None);
}
