use gleam_finder::config::{cooldown, database_file, init_on_launch, timeout, Config, MeiliSearchConfig};
use gleam_finder::cycle::{next_phase, remaining_sleep, Phase};
use gleam_finder::record::CampaignRecord;
use gleam_finder::store::RecordStore;
use gleam_finder::sync::{active_records, plan_incremental};

fn doc(key: &str, ends_at: Option<u64>) -> CampaignRecord {
    CampaignRecord {
        key: key.to_string(),
        url: format!("https://gleam.io/{}/-", key),
        referers: Vec::new(),
        last_updated: 1,
        ends_at,
        entry_count: None,
        entry_history: None,
        details: format!("doc {}", key),
    }
}

fn mixed() -> RecordStore {
    RecordStore::from_records(vec![
        doc("running", Some(500)),
        doc("ending", Some(100)),
        doc("ended", Some(99)),
        doc("open", None),
        doc("long-gone", Some(0)),
    ])
}

#[test]
fn full_rebuild_pushes_only_active_records() {
    let docs = active_records(&mixed(), 100);
    let mut keys: Vec<String> = docs.iter().map(|d| d.key.clone()).collect();
    keys.sort();
    assert_eq!(keys, vec!["open".to_string(), "running".to_string()]);
    for d in &docs {
        assert!(d.is_active(100));
        assert!(d.ends_at.map_or(true, |end| end > 100));
    }
    assert!(docs.contains(&doc("running", Some(500))));
    assert!(docs.contains(&doc("open", None)));
}

#[test]
fn full_rebuild_at_other_times() {
    assert_eq!(active_records(&mixed(), 0).len(), 4);
    assert_eq!(active_records(&mixed(), 99).len(), 3);
    assert_eq!(active_records(&mixed(), 499).len(), 2);
    assert_eq!(active_records(&mixed(), 500), vec![doc("open", None)]);
    assert!(active_records(&RecordStore::new(), 0).is_empty());
}

#[test]
fn incremental_sync_splits_the_stale_keys() {
    let stale: Vec<String> = ["open", "removed", "ended", "running", "ending", "vanished"]
        .iter()
        .map(|k| k.to_string())
        .collect();
    let plan = plan_incremental(&mixed(), &stale, 100);
    assert_eq!(plan.replace, vec![doc("open", None), doc("running", Some(500))]);
    assert_eq!(plan.remove, vec!["removed".to_string(), "vanished".to_string()]);
    for d in &plan.replace {
        assert!(d.ends_at.map_or(true, |end| end > 100));
    }
}

#[test]
fn incremental_sync_of_nothing() {
    let plan = plan_incremental(&mixed(), &Vec::new(), 100);
    assert!(plan.replace.is_empty());
    assert!(plan.remove.is_empty());
    let plan = plan_incremental(&RecordStore::new(), &vec!["a".to_string()], 100);
    assert!(plan.replace.is_empty());
    assert_eq!(plan.remove, vec!["a".to_string()]);
}

#[test]
fn sleep_is_the_rest_of_the_period() {
    assert_eq!(remaining_sleep(3_540_000, 0), 3_540_000);
    assert_eq!(remaining_sleep(3_540_000, 1_000), 3_539_000);
    assert_eq!(remaining_sleep(3_540_000, 3_540_000), 0);
    assert_eq!(remaining_sleep(3_540_000, 3_540_001), 0);
    assert_eq!(remaining_sleep(3_540_000, u64::MAX), 0);
    assert_eq!(remaining_sleep(0, 0), 0);
}

#[test]
fn phases_follow_in_order() {
    let mut phase = Phase::Discover;
    let mut seen = vec![phase];
    for _ in 0..6 {
        phase = next_phase(phase, false, 3);
        seen.push(phase);
    }
    assert_eq!(
        seen,
        vec![
            Phase::Discover,
            Phase::Merge,
            Phase::Refresh,
            Phase::Persist,
            Phase::Sync,
            Phase::Sleep,
            Phase::Discover
        ]
    );
}

#[test]
fn refresh_is_skipped_without_a_budget() {
    assert_eq!(next_phase(Phase::Merge, false, 0), Phase::Persist);
    assert_eq!(next_phase(Phase::Merge, false, 1), Phase::Refresh);
}

#[test]
fn fast_run_leaves_after_discovery() {
    assert_eq!(next_phase(Phase::Discover, true, 3), Phase::Exit);
    assert_eq!(next_phase(Phase::Exit, true, 3), Phase::Exit);
    assert_eq!(next_phase(Phase::Exit, false, 0), Phase::Exit);
}

#[test]
fn defaults_of_the_configuration() {
    assert_eq!(cooldown(), 6);
    assert_eq!(timeout(), 10);
    assert!(init_on_launch());
    assert_eq!(database_file(), "giveaways.json");
    let config = Config::new();
    assert_eq!(config.cooldown, 6);
    assert_eq!(config.update, 0);
    assert_eq!(config.timeout, 10);
    assert!(!config.blame_useless_pages);
    assert_eq!(config.database_file, "giveaways.json");
    assert!(config.meilisearch.is_none());
    assert_eq!(config.cooldown_millis(), 6_000);
}

#[test]
fn cooldown_in_milliseconds_saturates() {
    let mut config = Config::new();
    config.cooldown = 0;
    assert_eq!(config.cooldown_millis(), 0);
    config.cooldown = usize::MAX;
    assert_eq!(config.cooldown_millis(), u64::MAX);
}

#[test]
fn index_settings_default_to_init_on_launch() {
    let m = MeiliSearchConfig::new(
        "http://localhost:7700".to_string(),
        "giveaways".to_string(),
        "SECRET-REDACTED".to_string(),
    );
    assert_eq!(m.host, "http://localhost:7700");
    assert_eq!(m.index, "giveaways");
    assert_eq!(m.key, "SECRET-REDACTED");
    assert!(m.init_on_launch);
}
