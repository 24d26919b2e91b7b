use otodom_scraper::liveness::{dead_offer_urls, is_gone, ProbeOutcome};
use otodom_scraper::offer::Offer;
use otodom_scraper::reconcile::{classify_batch, find_url, Store};

fn offer(url: &str, price: u64) -> Offer {
    Offer {
        id: None,
        price,
        detail_url: url.to_string(),
        rooms: 2,
        area: 5_000,
        location: "Downtown".to_string(),
        title: format!("Flat at {}", url),
        price_per_m2: Some(price as u128 * 100 / 5_000),
    }
}

fn snapshot(store: &Store) -> Vec<(Option<i64>, String, u64, String)> {
    store
        .rows
        .iter()
        .map(|o| (o.id, o.detail_url.clone(), o.price, o.title.clone()))
        .collect()
}

#[test]
fn new_listings_are_inserted_with_fresh_ids() {
    let mut store = Store::new();
    store.reconcile(&vec![offer("u1", 100), offer("u2", 200)]);
    assert_eq!(store.rows.len(), 2);
    assert_eq!(store.rows[0].id, Some(1));
    assert_eq!(store.rows[1].id, Some(2));
    assert_eq!(store.next_id, 3);
}

#[test]
fn reconciliation_is_idempotent() {
    let batch = vec![offer("u1", 100), offer("u2", 200), offer("u1", 150)];
    let mut store = Store::new();
    store.reconcile(&batch);
    let first = snapshot(&store);
    let next = store.next_id;
    store.reconcile(&batch);
    assert_eq!(snapshot(&store), first);
    assert_eq!(store.next_id, next);
}

#[test]
fn existing_url_is_updated_not_inserted() {
    let mut store = Store::new();
    store.reconcile(&vec![offer("u1", 100), offer("u2", 200)]);
    let mut changed = offer("u1", 90);
    changed.title = "Renamed".to_string();
    store.reconcile(&vec![changed]);
    assert_eq!(store.rows.len(), 2);
    assert_eq!(store.rows[0].id, Some(1));
    assert_eq!(store.rows[0].detail_url, "u1");
    assert_eq!(store.rows[0].price, 90);
    assert_eq!(store.rows[0].title, "Renamed");
    assert_eq!(store.rows[0].price_per_m2, Some(1));
    assert_eq!(store.rows[1].price, 200);
}

#[test]
fn repeated_url_in_one_batch_is_inserted_once() {
    let mut store = Store::new();
    store.reconcile(&vec![offer("u1", 100), offer("u1", 120)]);
    assert_eq!(store.rows.len(), 1);
    assert_eq!(store.rows[0].price, 120);
    assert_eq!(store.rows[0].id, Some(1));
}

#[test]
fn earlier_page_records_are_not_new_on_a_later_page() {
    let mut store = Store::new();
    store.reconcile(&vec![offer("u1", 100)]);
    store.reconcile(&vec![offer("u1", 110), offer("u3", 300)]);
    assert_eq!(store.rows.len(), 2);
    assert_eq!(store.rows[0].id, Some(1));
    assert_eq!(store.rows[1].id, Some(2));
}

#[test]
fn batch_is_classified_against_snapshot_and_itself() {
    let persisted = vec![offer("u1", 100)];
    let batch = vec![offer("u2", 1), offer("u1", 2), offer("u2", 3), offer("u4", 4)];
    assert_eq!(classify_batch(&persisted, &batch), vec![false, true, true, false]);
    assert_eq!(classify_batch(&persisted, &vec![]), Vec::<bool>::new());
}

#[test]
fn find_url_locates_rows() {
    let rows = vec![offer("u1", 1), offer("u2", 2)];
    assert_eq!(find_url(&rows, &"u2".to_string()), Some(1));
    assert_eq!(find_url(&rows, &"u9".to_string()), None);
}

#[test]
fn only_not_found_evicts() {
    assert!(is_gone(&ProbeOutcome::Status(404)));
    assert!(!is_gone(&ProbeOutcome::Status(200)));
    assert!(!is_gone(&ProbeOutcome::Status(500)));
    assert!(!is_gone(&ProbeOutcome::Status(410)));
    assert!(!is_gone(&ProbeOutcome::Failed));
}

#[test]
fn liveness_evicts_gone_listings_only() {
    let mut store = Store::new();
    store.reconcile(&vec![offer("u1", 1), offer("u2", 2), offer("u3", 3), offer("u4", 4)]);
    let outcomes = vec![
        ProbeOutcome::Status(404),
        ProbeOutcome::Status(200),
        ProbeOutcome::Status(500),
        ProbeOutcome::Failed,
    ];
    let dead = dead_offer_urls(&store.rows, &outcomes);
    assert_eq!(dead, vec!["u1".to_string()]);
    for u in &dead {
        store.evict(u);
    }
    let urls: Vec<String> = store.rows.iter().map(|o| o.detail_url.clone()).collect();
    assert_eq!(urls, vec!["u2", "u3", "u4"]);
}

#[test]
fn evicting_unknown_url_changes_nothing() {
    let mut store = Store::new();
    store.reconcile(&vec![offer("u1", 1)]);
    store.evict(&"u9".to_string());
    assert_eq!(store.rows.len(), 1);
    assert_eq!(store.next_id, 2);
}
