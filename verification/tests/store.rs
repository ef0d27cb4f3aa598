use gleam_finder::record::CampaignRecord;
use gleam_finder::store::RecordStore;

fn record(key: &str, last_updated: u64, ends_at: Option<u64>, details: &str) -> CampaignRecord {
    CampaignRecord {
        key: key.to_string(),
        url: format!("https://gleam.io/{}/-", key),
        referers: vec![format!("https://gleam.io/{}/-", key)],
        last_updated,
        ends_at,
        entry_count: Some(3),
        entry_history: Some(vec![(last_updated, 3)]),
        details: details.to_string(),
    }
}

fn sorted_keys(store: &RecordStore) -> Vec<String> {
    let mut keys: Vec<String> = store.records().iter().map(|r| r.key.clone()).collect();
    keys.sort();
    keys
}

#[test]
fn new_store_is_empty() {
    let store = RecordStore::new();
    assert!(store.is_empty());
    assert_eq!(store.len(), 0);
    assert!(!store.contains_key(&"X".to_string()));
    assert!(store.get(&"X".to_string()).is_none());
    assert!(store.records().is_empty());
}

#[test]
fn insert_overwrites_the_same_key() {
    let mut store = RecordStore::new();
    store.insert(record("A", 1, Some(10), "first"));
    store.insert(record("B", 2, Some(10), "other"));
    store.insert(record("A", 3, Some(10), "second"));
    assert_eq!(store.len(), 2);
    assert!(!store.is_empty());
    assert_eq!(store.get(&"A".to_string()), Some(&record("A", 3, Some(10), "second")));
    assert_eq!(store.get(&"B".to_string()), Some(&record("B", 2, Some(10), "other")));
    assert_eq!(sorted_keys(&store), vec!["A".to_string(), "B".to_string()]);
}

#[test]
fn remove_takes_one_key_out() {
    let mut store = RecordStore::new();
    store.insert(record("A", 1, Some(10), "a"));
    store.insert(record("B", 2, Some(10), "b"));
    store.insert(record("C", 3, Some(10), "c"));
    assert!(store.remove(&"B".to_string()));
    assert!(!store.remove(&"B".to_string()));
    assert!(!store.remove(&"Z".to_string()));
    assert_eq!(store.len(), 2);
    assert!(!store.contains_key(&"B".to_string()));
    assert_eq!(store.get(&"A".to_string()), Some(&record("A", 1, Some(10), "a")));
    assert_eq!(store.get(&"C".to_string()), Some(&record("C", 3, Some(10), "c")));
}

#[test]
fn from_records_keeps_the_last_of_a_key() {
    let store = RecordStore::from_records(vec![
        record("A", 1, Some(10), "first"),
        record("B", 2, Some(10), "b"),
        record("A", 5, None, "last"),
    ]);
    assert_eq!(store.len(), 2);
    assert_eq!(store.get(&"A".to_string()), Some(&record("A", 5, None, "last")));
    assert_eq!(store.get(&"B".to_string()), Some(&record("B", 2, Some(10), "b")));
    assert!(RecordStore::from_records(Vec::new()).is_empty());
}

#[test]
fn merge_prefers_the_discovered_version() {
    let discovered = RecordStore::from_records(vec![record("X", 50, Some(900), "new fields")]);
    let persisted = RecordStore::from_records(vec![record("X", 10, Some(800), "older fields")]);
    let merged = RecordStore::merge(discovered, persisted);
    assert_eq!(merged.len(), 1);
    assert_eq!(merged.get(&"X".to_string()), Some(&record("X", 50, Some(900), "new fields")));
    assert_ne!(merged.get(&"X".to_string()), Some(&record("X", 10, Some(800), "older fields")));
}

#[test]
fn merge_retains_what_was_not_rediscovered() {
    let discovered = RecordStore::from_records(vec![
        record("A", 50, Some(900), "a new"),
        record("N", 51, None, "n new"),
    ]);
    let persisted = RecordStore::from_records(vec![
        record("A", 10, Some(800), "a old"),
        record("P", 11, Some(5), "p old"),
        record("Q", 12, None, "q old"),
    ]);
    let merged = RecordStore::merge(discovered, persisted);
    assert_eq!(merged.len(), 4);
    assert_eq!(
        sorted_keys(&merged),
        vec!["A".to_string(), "N".to_string(), "P".to_string(), "Q".to_string()]
    );
    assert_eq!(merged.get(&"A".to_string()), Some(&record("A", 50, Some(900), "a new")));
    assert_eq!(merged.get(&"N".to_string()), Some(&record("N", 51, None, "n new")));
    assert_eq!(merged.get(&"P".to_string()), Some(&record("P", 11, Some(5), "p old")));
    assert_eq!(merged.get(&"Q".to_string()), Some(&record("Q", 12, None, "q old")));
}

#[test]
fn merge_with_an_empty_side() {
    let persisted = RecordStore::from_records(vec![record("P", 11, Some(5), "p")]);
    let merged = RecordStore::merge(RecordStore::new(), persisted);
    assert_eq!(merged.len(), 1);
    assert_eq!(merged.get(&"P".to_string()), Some(&record("P", 11, Some(5), "p")));
    let discovered = RecordStore::from_records(vec![record("D", 1, None, "d")]);
    let merged = RecordStore::merge(discovered, RecordStore::new());
    assert_eq!(merged.len(), 1);
    assert_eq!(merged.get(&"D".to_string()), Some(&record("D", 1, None, "d")));
    assert!(RecordStore::merge(RecordStore::new(), RecordStore::new()).is_empty());
}

#[test]
fn repeated_merges_never_repeat_a_key() {
    let mut store = RecordStore::new();
    for cycle in 0..5u64 {
        let discovered = RecordStore::from_records(vec![
            record("A", cycle, Some(100), "a"),
            record(&format!("K{}", cycle), cycle, Some(100), "k"),
            record(&format!("K{}", cycle / 2), cycle, Some(100), "again"),
        ]);
        store = RecordStore::merge(discovered, store);
        let keys = sorted_keys(&store);
        let mut unique = keys.clone();
        unique.dedup();
        assert_eq!(keys, unique);
        assert_eq!(store.len(), keys.len());
    }
    assert_eq!(
        sorted_keys(&store),
        vec!["A", "K0", "K1", "K2", "K3", "K4"].iter().map(|k| k.to_string()).collect::<Vec<_>>()
    );
    assert_eq!(store.get(&"A".to_string()), Some(&record("A", 4, Some(100), "a")));
}

#[test]
fn shallow_record_has_no_details() {
    let r = CampaignRecord::new("7qHd6".to_string(), "https://gleam.io/7qHd6/-".to_string());
    assert_eq!(r.key, "7qHd6");
    assert_eq!(r.url, "https://gleam.io/7qHd6/-");
    assert!(r.referers.is_empty());
    assert_eq!(r.last_updated, 0);
    assert_eq!(r.ends_at, None);
    assert_eq!(r.entry_count, None);
    assert_eq!(r.entry_history, None);
    assert_eq!(r.details, "");
    assert!(r.is_active(u64::MAX));
    assert!(r.is_refreshable());
}

#[test]
fn record_is_active_until_its_expiry() {
    let r = record("A", 10, Some(100), "a");
    assert!(r.is_active(0));
    assert!(r.is_active(99));
    assert!(!r.is_active(100));
    assert!(!r.is_active(101));
    assert!(record("A", 10, None, "a").is_active(u64::MAX));
}

#[test]
fn record_is_refreshable_while_updated_before_expiry() {
    assert!(record("A", 10, Some(11), "a").is_refreshable());
    assert!(!record("A", 10, Some(10), "a").is_refreshable());
    assert!(!record("A", 10, Some(9), "a").is_refreshable());
    assert!(record("A", u64::MAX, None, "a").is_refreshable());
}

#[test]
fn referers_are_added_once() {
    let mut r = CampaignRecord::new("A".to_string(), "u".to_string());
    r.add_referer("https://a.example/".to_string());
    r.add_referer("https://b.example/".to_string());
    r.add_referer("https://a.example/".to_string());
    assert_eq!(
        r.referers,
        vec!["https://a.example/".to_string(), "https://b.example/".to_string()]
    );
    assert_eq!(r.key, "A");
    assert_eq!(r.url, "u");
}

#[test]
fn clone_copies_every_field() {
    let r = record("A", 10, Some(11), "details");
    assert_eq!(r.clone(), r);
    let shallow = CampaignRecord::new("B".to_string(), "u".to_string());
    assert_eq!(shallow.clone(), shallow);
}
