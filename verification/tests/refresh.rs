use gleam_finder::error::Error;
use gleam_finder::limiter::RateLimiter;
use gleam_finder::record::CampaignRecord;
use gleam_finder::refresh::{apply_outcome, select_stale, RefreshAction, RefreshRun};
use gleam_finder::store::RecordStore;

fn stored(key: &str, last_updated: u64, ends_at: Option<u64>) -> CampaignRecord {
    CampaignRecord {
        key: key.to_string(),
        url: format!("https://gleam.io/{}/-", key),
        referers: vec!["https://referer.example/".to_string()],
        last_updated,
        ends_at,
        entry_count: None,
        entry_history: None,
        details: format!("details of {}", key),
    }
}

fn five() -> RecordStore {
    RecordStore::from_records(vec![
        stored("K30", 30, Some(1000)),
        stored("K10", 10, Some(1000)),
        stored("K50", 50, Some(1000)),
        stored("K20", 20, Some(1000)),
        stored("K40", 40, Some(1000)),
    ])
}

fn keys(list: &[&str]) -> Vec<String> {
    list.iter().map(|k| k.to_string()).collect()
}

#[test]
fn refresh_selects_the_two_stalest() {
    assert_eq!(select_stale(&five(), 2), keys(&["K10", "K20"]));
}

#[test]
fn refresh_selects_no_more_than_are_eligible() {
    let store = RecordStore::from_records(vec![
        stored("old", 5, Some(1000)),
        stored("expired", 7, Some(7)),
        stored("past", 9, Some(3)),
        stored("fresh", 8, Some(1000)),
    ]);
    assert_eq!(select_stale(&store, 10), keys(&["old", "fresh"]));
    assert_eq!(select_stale(&store, 2), keys(&["old", "fresh"]));
    assert_eq!(select_stale(&store, 1), keys(&["old"]));
}

#[test]
fn refresh_with_no_budget_selects_nothing() {
    assert_eq!(select_stale(&five(), 0), Vec::<String>::new());
    assert_eq!(select_stale(&RecordStore::new(), 3), Vec::<String>::new());
}

#[test]
fn refresh_selects_all_in_order_with_a_large_budget() {
    assert_eq!(select_stale(&five(), 5), keys(&["K10", "K20", "K30", "K40", "K50"]));
    assert_eq!(select_stale(&five(), usize::MAX), keys(&["K10", "K20", "K30", "K40", "K50"]));
}

#[test]
fn refresh_counts_an_unknown_expiry_as_ahead() {
    let store = RecordStore::from_records(vec![
        stored("known", 5, Some(6)),
        stored("unknown", 1, None),
    ]);
    assert_eq!(select_stale(&store, 5), keys(&["unknown", "known"]));
}

#[test]
fn refresh_never_prefers_a_later_record() {
    let store = RecordStore::from_records(vec![
        stored("a", 7, Some(100)),
        stored("b", 3, Some(100)),
        stored("c", 7, Some(100)),
        stored("d", 1, Some(100)),
        stored("e", 3, Some(2)),
        stored("f", 9, Some(100)),
    ]);
    for budget in 0..8usize {
        let chosen = select_stale(&store, budget);
        assert_eq!(chosen.len(), budget.min(5));
        for key in &chosen {
            let picked = store.get(key).unwrap();
            assert!(picked.is_refreshable());
            for other in store.records() {
                if other.is_refreshable() && !chosen.contains(&other.key) {
                    assert!(picked.last_updated <= other.last_updated);
                }
            }
        }
    }
    assert_eq!(select_stale(&store, 3), keys(&["d", "b", "a"]));
}

#[test]
fn successful_fetch_replaces_the_details() {
    let mut store = five();
    let mut fetched = stored("other-key", 77, Some(2000));
    fetched.url = "https://elsewhere.example/".to_string();
    fetched.entry_count = Some(12);
    fetched.entry_history = Some(vec![(77, 12)]);
    apply_outcome(&mut store, &"K10".to_string(), Ok(fetched));
    let now = store.get(&"K10".to_string()).unwrap();
    assert_eq!(now.key, "K10");
    assert_eq!(now.url, "https://gleam.io/K10/-");
    assert_eq!(now.last_updated, 77);
    assert_eq!(now.ends_at, Some(2000));
    assert_eq!(now.entry_count, Some(12));
    assert_eq!(now.entry_history, Some(vec![(77, 12)]));
    assert_eq!(now.details, "details of other-key");
    assert_eq!(store.len(), 5);
    assert!(!store.contains_key(&"other-key".to_string()));
    assert_eq!(store.get(&"K20".to_string()), Some(&stored("K20", 20, Some(1000))));
}

#[test]
fn invalid_response_removes_the_record() {
    let mut store = five();
    apply_outcome(&mut store, &"K10".to_string(), Err(Error::InvalidResponse));
    assert!(!store.contains_key(&"K10".to_string()));
    assert_eq!(store.len(), 4);
    assert_eq!(store.get(&"K20".to_string()), Some(&stored("K20", 20, Some(1000))));
}

#[test]
fn timeout_leaves_the_record() {
    let mut store = five();
    apply_outcome(&mut store, &"K10".to_string(), Err(Error::Timeout));
    assert_eq!(store.len(), 5);
    assert_eq!(store.get(&"K10".to_string()), Some(&stored("K10", 10, Some(1000))));
}

#[test]
fn outcome_for_an_unknown_key_changes_nothing() {
    let mut store = five();
    apply_outcome(&mut store, &"gone".to_string(), Ok(stored("gone", 1, None)));
    apply_outcome(&mut store, &"gone".to_string(), Err(Error::InvalidResponse));
    assert_eq!(store.len(), 5);
    assert!(!store.contains_key(&"gone".to_string()));
}

#[test]
fn run_removes_what_came_back_invalid() {
    let mut store = five();
    let mut limiter = RateLimiter::new(6_000, true);
    let mut run = RefreshRun::new(select_stale(&store, 2), 10_000);

    let first = run.next_action(&mut limiter, 100);
    match first {
        RefreshAction::Fetch { key, not_before } => {
            assert_eq!(key, "K10");
            assert_eq!(not_before, 100);
        }
        RefreshAction::Finished { .. } => panic!("nothing to fetch"),
    }
    run.apply(&mut store, Err(Error::InvalidResponse), 150);

    let second = run.next_action(&mut limiter, 200);
    match second {
        RefreshAction::Fetch { key, not_before } => {
            assert_eq!(key, "K20");
            assert_eq!(not_before, 6_100);
        }
        RefreshAction::Finished { .. } => panic!("one more to fetch"),
    }
    run.apply(&mut store, Ok(stored("K20", 6_200, Some(9_000))), 6_200);

    match run.next_action(&mut limiter, 6_300) {
        RefreshAction::Finished { updated } => assert_eq!(updated, 1),
        RefreshAction::Fetch { .. } => panic!("the budget was two"),
    }
    assert_eq!(run.updated(), 1);
    assert!(!store.contains_key(&"K10".to_string()));
    assert_eq!(store.get(&"K20".to_string()).unwrap().last_updated, 6_200);
    assert_eq!(store.get(&"K30".to_string()), Some(&stored("K30", 30, Some(1000))));
    assert_eq!(store.get(&"K40".to_string()), Some(&stored("K40", 40, Some(1000))));
    assert_eq!(store.get(&"K50".to_string()), Some(&stored("K50", 50, Some(1000))));
    assert_eq!(store.len(), 4);
}

#[test]
fn run_waits_longer_after_a_timeout() {
    let mut store = five();
    let mut limiter = RateLimiter::new(6_000, true);
    let mut run = RefreshRun::new(select_stale(&store, 3), 10_000);

    match run.next_action(&mut limiter, 0) {
        RefreshAction::Fetch { not_before, .. } => assert_eq!(not_before, 0),
        RefreshAction::Finished { .. } => panic!("nothing to fetch"),
    }
    run.apply(&mut store, Err(Error::Timeout), 30_000);
    assert_eq!(store.get(&"K10".to_string()), Some(&stored("K10", 10, Some(1000))));

    // the cooldown has long passed, the penalty has not
    match run.next_action(&mut limiter, 30_001) {
        RefreshAction::Fetch { key, not_before } => {
            assert_eq!(key, "K20");
            assert_eq!(not_before, 40_000);
        }
        RefreshAction::Finished { .. } => panic!("two more to fetch"),
    }
    run.apply(&mut store, Ok(stored("K20", 40_100, Some(90_000))), 40_100);

    // after a success only the cooldown counts
    match run.next_action(&mut limiter, 40_200) {
        RefreshAction::Fetch { key, not_before } => {
            assert_eq!(key, "K30");
            assert_eq!(not_before, 46_000);
        }
        RefreshAction::Finished { .. } => panic!("one more to fetch"),
    }
    run.apply(&mut store, Err(Error::Timeout), 50_000);
    match run.next_action(&mut limiter, 50_000) {
        RefreshAction::Finished { updated } => assert_eq!(updated, 1),
        RefreshAction::Fetch { .. } => panic!("the budget was three"),
    }
    assert_eq!(store.len(), 5);
}

#[test]
fn finished_run_ignores_outcomes() {
    let mut store = five();
    let mut limiter = RateLimiter::new(5, true);
    let mut run = RefreshRun::new(Vec::new(), 10);
    match run.next_action(&mut limiter, 1) {
        RefreshAction::Finished { updated } => assert_eq!(updated, 0),
        RefreshAction::Fetch { .. } => panic!("nothing was chosen"),
    }
    run.apply(&mut store, Err(Error::InvalidResponse), 2);
    run.apply(&mut store, Ok(stored("K10", 99, None)), 2);
    assert_eq!(store.len(), 5);
    assert_eq!(store.get(&"K10".to_string()), Some(&stored("K10", 10, Some(1000))));
    assert_eq!(run.updated(), 0);
}

#[test]
fn penalty_saturates_at_the_end_of_time() {
    let mut store = five();
    let mut limiter = RateLimiter::new(5, true);
    let mut run = RefreshRun::new(select_stale(&store, 2), u64::MAX);
    let _ = run.next_action(&mut limiter, 10);
    run.apply(&mut store, Err(Error::Timeout), 20);
    match run.next_action(&mut limiter, 30) {
        RefreshAction::Fetch { not_before, .. } => assert_eq!(not_before, u64::MAX),
        RefreshAction::Finished { .. } => panic!("one more to fetch"),
    }
}

#[test]
fn records_updated_together_are_chosen_in_store_order() {
    let store = RecordStore::from_records(vec![
        stored("late", 9, Some(100)),
        stored("first", 5, Some(100)),
        stored("second", 5, Some(100)),
        stored("third", 5, Some(100)),
    ]);
    assert_eq!(select_stale(&store, 1), keys(&["first"]));
    assert_eq!(select_stale(&store, 2), keys(&["first", "second"]));
    assert_eq!(select_stale(&store, 4), keys(&["first", "second", "third", "late"]));
}
