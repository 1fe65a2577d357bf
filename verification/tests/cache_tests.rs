use kasir_cache::cache::CacheStore;
use kasir_cache::cache_service::CacheService;
use kasir_cache::dates::Date;
use kasir_cache::models::Transaksi;
use kasir_cache::planner::RangeFetchPlanner;
use kasir_cache::state::AppState;

fn d(year: u32, month: u32, day: u32) -> Date {
    Date { year, month, day }
}

fn tx(nota: &str, amount: i64) -> Transaksi {
    Transaksi {
        tanggal_transaksi: String::from("01/01/2024"),
        waktu_transaksi: String::from("10:00"),
        keterangan: String::from("test"),
        total_tagihan: amount,
        no_nota: String::from(nota),
    }
}

#[test]
fn absent_date_is_missing_until_put() {
    // A cache with no entry for d reports d missing; after a non-empty put
    // it no longer does.
    let mut cache = CacheStore::new();
    let day = d(2024, 1, 1);
    let dates = vec![day];
    let missing = RangeFetchPlanner::missing_dates(&cache, &dates);
    assert_eq!(missing.len(), 1);
    assert_eq!(missing[0], day);
    cache.put(day, vec![tx("A", 10)]);
    let missing_after = RangeFetchPlanner::missing_dates(&cache, &dates);
    assert!(missing_after.is_empty());
}

#[test]
fn empty_put_leaves_date_absent() {
    // put(d, []) must never make get(d) answer Some([]).
    let mut cache = CacheStore::new();
    let day = d(2024, 1, 1);
    cache.put(day, vec![]);
    assert!(cache.get(&day).is_none());
    assert!(!cache.contains(&day));
}

#[test]
fn put_get_remove_round() {
    let mut cache = CacheStore::new();
    let day = d(2024, 3, 5);
    cache.put(day, vec![tx("A", 1), tx("B", 2)]);
    let got = cache.get(&day).unwrap();
    assert_eq!(got.len(), 2);
    assert_eq!(got[0].no_nota, "A");
    assert_eq!(got[1].no_nota, "B");
    cache.put(day, vec![tx("C", 3)]);
    assert_eq!(cache.get(&day).unwrap()[0].no_nota, "C");
    cache.remove(&day);
    assert!(cache.get(&day).is_none());
}

#[test]
fn merge_does_not_overwrite_memory() {
    // A snapshot holding a different value for a key already in memory must
    // lose: the in-memory value stays.
    let mut state = AppState::new();
    let day = d(2024, 1, 1);
    state.cache.put(day, vec![tx("MEMORY", 7)]);
    let mapping = vec![(day, vec![tx("FILE", 9)]), (d(2024, 1, 2), vec![tx("NEW", 1)])];
    let count = CacheService::load_all_from_file_cache(&mut state, &mapping);
    assert_eq!(count, 2);
    assert_eq!(state.cache.get(&day).unwrap()[0].no_nota, "MEMORY");
    assert_eq!(state.cache.get(&d(2024, 1, 2)).unwrap()[0].no_nota, "NEW");
}

#[test]
fn merge_skips_empty_entries() {
    let mut state = AppState::new();
    let mapping = vec![(d(2024, 1, 1), vec![]), (d(2024, 1, 2), vec![tx("X", 1)])];
    CacheService::load_all_from_file_cache(&mut state, &mapping);
    assert!(state.cache.get(&d(2024, 1, 1)).is_none());
    assert!(state.cache.get(&d(2024, 1, 2)).is_some());
}

#[test]
fn snapshot_round_trip_reproduces_entries() {
    // Writing a snapshot and loading it into an empty cache reproduces the
    // same non-empty entries.
    let mut cache = CacheStore::new();
    cache.put(d(2024, 1, 1), vec![tx("A", 1)]);
    cache.put(d(2024, 1, 3), vec![tx("B", 2), tx("C", 3)]);
    let snap = cache.snapshot();
    let mut restored = CacheStore::new();
    restored.load_merge(&snap);
    let a = restored.get(&d(2024, 1, 1)).unwrap();
    assert_eq!(a.len(), 1);
    assert_eq!(a[0].no_nota, "A");
    let b = restored.get(&d(2024, 1, 3)).unwrap();
    assert_eq!(b.len(), 2);
    assert_eq!(b[0].no_nota, "B");
    assert_eq!(b[1].no_nota, "C");
    assert!(restored.get(&d(2024, 1, 2)).is_none());
}

#[test]
fn clean_empty_entries_counts_and_filters() {
    let mapping = vec![
        (d(2024, 1, 1), vec![tx("A", 1)]),
        (d(2024, 1, 2), vec![]),
        (d(2024, 1, 3), vec![]),
        (d(2024, 1, 4), vec![tx("B", 2)]),
    ];
    let (cleaned, removed) = CacheService::clean_empty_cache_entries(&mapping);
    assert_eq!(removed, 2);
    assert_eq!(cleaned.len(), 2);
    assert_eq!(cleaned[0].0, d(2024, 1, 1));
    assert_eq!(cleaned[1].0, d(2024, 1, 4));
}

#[test]
fn collect_cached_and_missing_partitions() {
    let mut state = AppState::new();
    state.cache.put(d(2024, 1, 1), vec![tx("A", 1)]);
    state.cache.put(d(2024, 1, 3), vec![tx("B", 2)]);
    let dates = vec![d(2024, 1, 1), d(2024, 1, 2), d(2024, 1, 3), d(2024, 1, 4)];
    let (all, missing) = CacheService::collect_cached_and_missing(&state, &dates);
    assert_eq!(all.len(), 2);
    assert_eq!(all[0].no_nota, "A");
    assert_eq!(all[1].no_nota, "B");
    assert_eq!(missing, vec![d(2024, 1, 2), d(2024, 1, 4)]);
}

#[test]
fn get_date_range_transactions_errors_when_nothing_cached() {
    let mut state = AppState::new();
    let payload = kasir_cache::models::Payload {
        from: String::from("01/01/2024"),
        to: String::from("02/01/2024"),
        cookie: String::from("c"),
    };
    let r = CacheService::get_date_range_transactions(&state, &payload);
    assert!(r.is_err());
    state.cache.put(d(2024, 1, 1), vec![tx("A", 1)]);
    let ok = CacheService::get_date_range_transactions(&state, &payload).unwrap();
    assert_eq!(ok.len(), 1);
    let bad = kasir_cache::models::Payload {
        from: String::from("zzz"),
        to: String::from("02/01/2024"),
        cookie: String::from("c"),
    };
    assert!(CacheService::get_date_range_transactions(&state, &bad).is_err());
}

#[test]
fn cache_fetched_range_groups_by_transaction_date() {
    let mut state = AppState::new();
    let mut a = tx("A", 1);
    a.tanggal_transaksi = String::from("01/01/2024");
    let mut b = tx("B", 2);
    b.tanggal_transaksi = String::from("2024-01-02");
    let mut c = tx("C", 3);
    c.tanggal_transaksi = String::from("junk");
    let dates = vec![d(2024, 1, 1), d(2024, 1, 2), d(2024, 1, 3)];
    let records = vec![a, b, c];
    CacheService::cache_fetched_range(&mut state, &dates, &records);
    assert_eq!(state.cache.get(&d(2024, 1, 1)).unwrap()[0].no_nota, "A");
    // a differently written date normalizes onto its calendar day
    assert_eq!(state.cache.get(&d(2024, 1, 2)).unwrap()[0].no_nota, "B");
    // no record matched: the day stays absent
    assert!(state.cache.get(&d(2024, 1, 3)).is_none());
}

#[test]
fn remove_date_range_clears_only_named_days() {
    let mut state = AppState::new();
    state.cache.put(d(2024, 1, 1), vec![tx("A", 1)]);
    state.cache.put(d(2024, 1, 2), vec![tx("B", 2)]);
    state.cache.put(d(2024, 2, 1), vec![tx("C", 3)]);
    CacheService::remove_date_range(&mut state, &vec![d(2024, 1, 1), d(2024, 1, 2)]);
    assert!(state.cache.get(&d(2024, 1, 1)).is_none());
    assert!(state.cache.get(&d(2024, 1, 2)).is_none());
    assert!(state.cache.get(&d(2024, 2, 1)).is_some());
}

#[test]
fn processing_marks_are_advisory() {
    let mut state = AppState::new();
    let day = d(2024, 1, 1);
    assert!(!CacheService::is_date_processing(&state, &day));
    CacheService::set_date_processing(&mut state, &day, true);
    assert!(CacheService::is_date_processing(&state, &day));
    assert!(!state.processing.try_acquire(day));
    CacheService::set_date_processing(&mut state, &day, false);
    assert!(!CacheService::is_date_processing(&state, &day));
    assert!(state.processing.try_acquire(day));
}
