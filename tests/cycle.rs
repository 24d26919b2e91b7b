use otodom_scraper::cycle::{on_page_fetched, page_to_fetch, start_cycle, CycleState, Fetched};
use otodom_scraper::offer::{RawFragment, ScrapeError};
use otodom_scraper::page::RawPage;

fn fragment(href: &str) -> RawFragment {
    RawFragment {
        title: Some("Flat".to_string()),
        price_text: Some("100 000 zł".to_string()),
        href: Some(href.to_string()),
        location: Some("Downtown".to_string()),
        specs: Some(vec!["2".to_string(), "40 m²".to_string()]),
    }
}

fn page(hrefs: &[&str], last: Option<&str>) -> RawPage {
    RawPage {
        has_root: true,
        fragments: hrefs.iter().map(|h| fragment(h)).collect(),
        pagination: last.map(|l| vec!["1".to_string(), l.to_string(), ">".to_string()]),
    }
}

#[test]
fn missing_pagination_aborts_before_other_pages() {
    let s = start_cycle();
    assert_eq!(page_to_fetch(&s), Some(1));
    let d = on_page_fetched(&s, Fetched::Page(page(&["/a"], None)));
    assert_eq!(d.next, CycleState::Aborted(ScrapeError::PaginationNotFound));
    assert!(d.to_reconcile.is_empty());
    assert_eq!(page_to_fetch(&d.next), None);
}

#[test]
fn first_page_fetch_failure_aborts() {
    let d = on_page_fetched(&start_cycle(), Fetched::Failed);
    assert_eq!(d.next, CycleState::Aborted(ScrapeError::FetchFailed));
    assert_eq!(page_to_fetch(&d.next), None);
}

#[test]
fn first_page_without_root_aborts() {
    let p = RawPage { has_root: false, fragments: vec![], pagination: None };
    let d = on_page_fetched(&start_cycle(), Fetched::Page(p));
    assert_eq!(d.next, CycleState::Aborted(ScrapeError::MissingRootContainer));
}

#[test]
fn mid_cycle_failure_skips_only_that_page() {
    let d = on_page_fetched(&start_cycle(), Fetched::Page(page(&["/a"], Some("3"))));
    assert_eq!(d.to_reconcile.len(), 1);
    assert_eq!(d.next, CycleState::Paging { page: 2, last: 3 });
    let d = on_page_fetched(&d.next, Fetched::Failed);
    assert!(d.to_reconcile.is_empty());
    assert_eq!(d.next, CycleState::Paging { page: 3, last: 3 });
    assert_eq!(page_to_fetch(&d.next), Some(3));
    let d = on_page_fetched(&d.next, Fetched::Page(page(&["/b", "/c"], None)));
    assert_eq!(d.to_reconcile.len(), 2);
    assert_eq!(d.to_reconcile[1].detail_url, "https://www.otodom.pl/c");
    assert_eq!(d.next, CycleState::Done);
    assert_eq!(page_to_fetch(&d.next), None);
}

#[test]
fn later_page_without_root_is_skipped() {
    let s = CycleState::Paging { page: 2, last: 4 };
    let p = RawPage { has_root: false, fragments: vec![], pagination: None };
    let d = on_page_fetched(&s, Fetched::Page(p));
    assert!(d.to_reconcile.is_empty());
    assert_eq!(d.next, CycleState::Paging { page: 3, last: 4 });
}

#[test]
fn single_page_cycle_is_done_after_first_page() {
    let d = on_page_fetched(&start_cycle(), Fetched::Page(page(&["/a"], Some("1"))));
    assert_eq!(d.to_reconcile.len(), 1);
    assert_eq!(d.next, CycleState::Done);
}

#[test]
fn finished_cycle_stays_finished() {
    let d = on_page_fetched(&CycleState::Done, Fetched::Failed);
    assert_eq!(d.next, CycleState::Done);
    let a = CycleState::Aborted(ScrapeError::FetchFailed);
    let d = on_page_fetched(&a, Fetched::Page(page(&["/a"], Some("5"))));
    assert_eq!(d.next, a);
    assert!(d.to_reconcile.is_empty());
}
