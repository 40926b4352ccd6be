use shortty::allocator::{
    allocate, create_url_with_collision_handling, resolve_url, after_conflict, CollisionDecision,
};
use shortty::errors::AppError;
use shortty::hashing::{candidate_code, create_hash};
use shortty::mem_store::MemStore;
use shortty::store::Store;

const URL: &str = "https://example.com";

#[test]
fn first_attempt_is_deterministic() {
    let mut store = MemStore::new();
    let rec = allocate(&mut store, URL, 8).unwrap();
    assert_eq!(rec.short_code, create_hash(URL, 8));
    assert_eq!(rec.original_url, URL);
    assert_eq!(rec.click_count, 0);
    assert_eq!(store.record_count(), 1);
}

#[test]
fn allocation_is_idempotent() {
    let mut store = MemStore::new();
    let first = allocate(&mut store, URL, 8).unwrap();
    let second = allocate(&mut store, URL, 8).unwrap();
    assert_eq!(first.short_code, second.short_code);
    assert_eq!(second.original_url, URL);
    assert_eq!(store.record_count(), 1);
}

#[test]
fn collision_escapes_to_salted_candidate() {
    let mut store = MemStore::new();
    // A different URL already occupies this URL's first candidate.
    let c0 = create_hash(URL, 8);
    store.insert_if_absent(&c0, "https://occupant.example").unwrap();
    let rec = allocate(&mut store, URL, 8).unwrap();
    assert_eq!(rec.short_code, candidate_code(URL, 8, 1));
    assert_eq!(rec.original_url, URL);
    assert_eq!(store.record_count(), 2);
}

#[test]
fn concurrent_same_url_allocation_converges() {
    let mut store = MemStore::new();
    let c0 = create_hash(URL, 8);
    // The winner's atomic insert has already landed; the loser's conditional
    // insert now conflicts, reads the same URL back, and adopts the row.
    let winner = store.insert_if_absent(&c0, URL).unwrap();
    let loser = create_url_with_collision_handling(&mut store, URL, 8).unwrap();
    assert_eq!(winner.short_code, loser.short_code);
    assert_eq!(loser.short_code, c0);
    assert_eq!(store.record_count(), 1);
}

#[test]
fn conflict_decisions() {
    let own = String::from(URL);
    let other = String::from("https://occupant.example");
    assert_eq!(after_conflict(URL, Some(&own), 0), CollisionDecision::AdoptExisting);
    assert_eq!(after_conflict(URL, Some(&other), 0), CollisionDecision::TryNext);
    assert_eq!(after_conflict(URL, Some(&other), 9), CollisionDecision::GiveUp);
    assert_eq!(after_conflict(URL, None, 9), CollisionDecision::GiveUp);
}

#[test]
fn exhaustion_after_ten_occupied_candidates() {
    let mut store = MemStore::new();
    for k in 0..10 {
        let code = candidate_code(URL, 8, k);
        let occupant = format!("https://occupant{}.example", k);
        assert!(store.insert_if_absent(&code, &occupant).is_some());
    }
    let res = allocate(&mut store, URL, 8);
    assert!(matches!(res, Err(AppError::Internal)));
    // No eleventh attempt: nothing was written.
    assert_eq!(store.record_count(), 10);
}

#[test]
fn resolution_counts_clicks() {
    let mut store = MemStore::new();
    let rec = allocate(&mut store, URL, 8).unwrap();
    assert_eq!(rec.click_count, 0);
    let back = resolve_url(&mut store, &rec.short_code).unwrap();
    assert_eq!(back, URL);
    let after_one = store.find_by_short_code(&rec.short_code).unwrap();
    assert_eq!(after_one.click_count, 1);
    resolve_url(&mut store, &rec.short_code).unwrap();
    let after_two = store.find_by_short_code(&rec.short_code).unwrap();
    assert_eq!(after_two.click_count, 2);
    assert!(after_two.click_count >= after_one.click_count);
}

#[test]
fn resolving_unknown_code_is_not_found() {
    let mut store = MemStore::new();
    let res = resolve_url(&mut store, "missing1");
    assert!(matches!(res, Err(AppError::NotFound)));
}
