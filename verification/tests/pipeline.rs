use gleam_finder::error::Error;
use gleam_finder::limiter::RateLimiter;
use gleam_finder::pipeline::{Action, Event, Pipeline, Stage};
use gleam_finder::record::CampaignRecord;

fn links(list: &[&str]) -> Vec<String> {
    list.iter().map(|k| k.to_string()).collect()
}

fn campaign(key: &str, details: &str) -> CampaignRecord {
    CampaignRecord {
        key: key.to_string(),
        url: format!("https://gleam.io/{}/-", key),
        referers: vec![format!("https://gleam.io/{}/-", key)],
        last_updated: 1,
        ends_at: Some(1000),
        entry_count: None,
        entry_history: None,
        details: details.to_string(),
    }
}

#[test]
fn one_page_of_candidates_enters_the_resolve_stage() {
    let mut hosts = RateLimiter::new(6_000, false);
    let mut detail = RateLimiter::new(6_000, true);
    let mut pipeline = Pipeline::new(false);
    assert_eq!(pipeline.stage(), Stage::Idle);

    let action = pipeline.step(Event::Start, &mut hosts, &mut detail, 0);
    assert_eq!(action, Action::Search { page: 0, not_before: 0 });
    assert_eq!(pipeline.stage(), Stage::Search);

    let first = links(&["https://a.example/1", "https://b.example/2", "https://a.example/3"]);
    let action = pipeline.step(Event::Searched(Ok(first.clone())), &mut hosts, &mut detail, 100);
    assert_eq!(action, Action::Search { page: 1, not_before: 6_000 });
    assert_eq!(pipeline.candidates(), first);

    let action = pipeline.step(Event::Searched(Ok(Vec::new())), &mut hosts, &mut detail, 6_100);
    assert_eq!(
        action,
        Action::Resolve { url: "https://a.example/1".to_string(), not_before: 6_100 }
    );
    assert_eq!(pipeline.stage(), Stage::Resolve);
    assert_eq!(pipeline.candidates(), first);
}

#[test]
fn failed_search_ends_the_search_stage() {
    let mut hosts = RateLimiter::new(6_000, false);
    let mut detail = RateLimiter::new(6_000, true);
    let mut pipeline = Pipeline::new(false);
    pipeline.step(Event::Start, &mut hosts, &mut detail, 0);
    pipeline.step(Event::Searched(Ok(links(&["https://a.example/1"]))), &mut hosts, &mut detail, 1);
    let action = pipeline.step(Event::Searched(Err(Error::Timeout)), &mut hosts, &mut detail, 7_000);
    assert_eq!(
        action,
        Action::Resolve { url: "https://a.example/1".to_string(), not_before: 7_000 }
    );
}

#[test]
fn search_without_results_finishes_at_once() {
    let mut hosts = RateLimiter::new(6_000, false);
    let mut detail = RateLimiter::new(6_000, true);
    let mut pipeline = Pipeline::new(false);
    pipeline.step(Event::Start, &mut hosts, &mut detail, 0);
    let action = pipeline.step(Event::Searched(Err(Error::InvalidResponse)), &mut hosts, &mut detail, 1);
    assert_eq!(action, Action::Finished);
    assert_eq!(pipeline.stage(), Stage::Done);
    assert!(pipeline.candidates().is_empty());
    assert!(pipeline.into_found().is_empty());
}

#[test]
fn full_run_fetches_every_campaign() {
    let mut hosts = RateLimiter::new(6_000, false);
    let mut detail = RateLimiter::new(6_000, true);
    let mut pipeline = Pipeline::new(false);
    pipeline.step(Event::Start, &mut hosts, &mut detail, 0);
    pipeline.step(
        Event::Searched(Ok(links(&["https://a.example/1", "not a url", "https://a.example/3", "also bad"]))),
        &mut hosts,
        &mut detail,
        10,
    );
    let action = pipeline.step(Event::Searched(Ok(Vec::new())), &mut hosts, &mut detail, 6_010);
    assert_eq!(
        action,
        Action::Resolve { url: "https://a.example/1".to_string(), not_before: 6_010 }
    );

    // the first page links to two campaigns
    let action = pipeline.step(
        Event::Resolved(Ok(links(&["https://gleam.io/AAAAA/-", "https://gleam.io/BBBBB/-"]))),
        &mut hosts,
        &mut detail,
        6_020,
    );
    assert_eq!(
        action,
        Action::Fetch { url: "https://gleam.io/AAAAA/-".to_string(), not_before: 6_020 }
    );
    assert_eq!(pipeline.stage(), Stage::Fetch);
    let action = pipeline.step(Event::Fetched(Ok(campaign("AAAAA", "first"))), &mut hosts, &mut detail, 6_030);
    assert_eq!(
        action,
        Action::Fetch { url: "https://gleam.io/BBBBB/-".to_string(), not_before: 12_020 }
    );
    // a timeout skips the campaign and the run goes on with the next page,
    // whose host is the sentinel and was not asked before
    let action = pipeline.step(Event::Fetched(Err(Error::Timeout)), &mut hosts, &mut detail, 12_030);
    assert_eq!(action, Action::Resolve { url: "not a url".to_string(), not_before: 12_030 });

    // a failed resolve is passed over; the third page is on the host of the first
    let action = pipeline.step(Event::Resolved(Err(Error::Timeout)), &mut hosts, &mut detail, 12_040);
    assert_eq!(
        action,
        Action::Resolve { url: "https://a.example/3".to_string(), not_before: 12_040 }
    );
    let action = pipeline.step(
        Event::Resolved(Ok(links(&["https://gleam.io/AAAAA/-"]))),
        &mut hosts,
        &mut detail,
        12_050,
    );
    assert_eq!(
        action,
        Action::Fetch { url: "https://gleam.io/AAAAA/-".to_string(), not_before: 18_020 }
    );
    // the later record of a key takes the place of the earlier one
    let action = pipeline.step(Event::Fetched(Ok(campaign("AAAAA", "second"))), &mut hosts, &mut detail, 18_030);
    // the fourth page shares the sentinel host with the second
    assert_eq!(action, Action::Resolve { url: "also bad".to_string(), not_before: 18_030 });
    let action = pipeline.step(Event::Resolved(Ok(Vec::new())), &mut hosts, &mut detail, 18_040);
    assert_eq!(action, Action::Finished);
    assert_eq!(pipeline.stage(), Stage::Done);

    assert_eq!(pipeline.found().len(), 1);
    let found = pipeline.into_found();
    assert_eq!(found.get(&"AAAAA".to_string()), Some(&campaign("AAAAA", "second")));
    assert!(!found.contains_key(&"BBBBB".to_string()));
}

#[test]
fn pages_of_one_host_are_spaced() {
    let mut hosts = RateLimiter::new(6_000, false);
    let mut detail = RateLimiter::new(6_000, true);
    let mut pipeline = Pipeline::new(true);
    pipeline.step(Event::Start, &mut hosts, &mut detail, 0);
    pipeline.step(
        Event::Searched(Ok(links(&["https://a.example/1", "https://a.example/2", "https://b.example/3"]))),
        &mut hosts,
        &mut detail,
        10,
    );
    let action = pipeline.step(Event::Searched(Ok(Vec::new())), &mut hosts, &mut detail, 6_000);
    assert_eq!(
        action,
        Action::Resolve { url: "https://a.example/1".to_string(), not_before: 6_000 }
    );
    let action = pipeline.step(Event::Resolved(Ok(Vec::new())), &mut hosts, &mut detail, 6_001);
    assert_eq!(
        action,
        Action::Resolve { url: "https://a.example/2".to_string(), not_before: 12_000 }
    );
    let action = pipeline.step(Event::Resolved(Ok(Vec::new())), &mut hosts, &mut detail, 12_001);
    assert_eq!(
        action,
        Action::Resolve { url: "https://b.example/3".to_string(), not_before: 12_001 }
    );
}

#[test]
fn fast_run_fetches_nothing() {
    let mut hosts = RateLimiter::new(6_000, false);
    let mut detail = RateLimiter::new(6_000, true);
    let mut pipeline = Pipeline::new(true);
    pipeline.step(Event::Start, &mut hosts, &mut detail, 0);
    pipeline.step(
        Event::Searched(Ok(links(&["https://a.example/1", "https://b.example/2"]))),
        &mut hosts,
        &mut detail,
        10,
    );
    pipeline.step(Event::Searched(Ok(Vec::new())), &mut hosts, &mut detail, 6_000);
    let action = pipeline.step(
        Event::Resolved(Ok(links(&["https://gleam.io/AAAAA/-"]))),
        &mut hosts,
        &mut detail,
        6_010,
    );
    assert_eq!(
        action,
        Action::Resolve { url: "https://b.example/2".to_string(), not_before: 6_010 }
    );
    let action = pipeline.step(
        Event::Resolved(Ok(links(&["https://gleam.io/BBBBB/-"]))),
        &mut hosts,
        &mut detail,
        6_020,
    );
    assert_eq!(action, Action::Finished);
    assert!(pipeline.into_found().is_empty());
    // the detail limiter was never asked
    assert_eq!(detail.acquire(&"gleam.io".to_string(), 1), 1);
}

#[test]
fn unexpected_events_are_ignored() {
    let mut hosts = RateLimiter::new(6_000, false);
    let mut detail = RateLimiter::new(6_000, true);
    let mut pipeline = Pipeline::new(false);
    assert_eq!(
        pipeline.step(Event::Searched(Ok(links(&["https://a.example/1"]))), &mut hosts, &mut detail, 0),
        Action::Ignored
    );
    assert_eq!(
        pipeline.step(Event::Fetched(Ok(campaign("AAAAA", "x"))), &mut hosts, &mut detail, 0),
        Action::Ignored
    );
    assert_eq!(pipeline.stage(), Stage::Idle);
    assert!(pipeline.candidates().is_empty());
    assert!(pipeline.found().is_empty());
    assert_eq!(
        pipeline.step(Event::Start, &mut hosts, &mut detail, 5),
        Action::Search { page: 0, not_before: 5 }
    );
    assert_eq!(pipeline.step(Event::Start, &mut hosts, &mut detail, 6), Action::Ignored);
    assert_eq!(
        pipeline.step(Event::Resolved(Ok(Vec::new())), &mut hosts, &mut detail, 7),
        Action::Ignored
    );
    assert_eq!(pipeline.stage(), Stage::Search);
    pipeline.step(Event::Searched(Ok(Vec::new())), &mut hosts, &mut detail, 8);
    assert_eq!(pipeline.stage(), Stage::Done);
    assert_eq!(pipeline.step(Event::Start, &mut hosts, &mut detail, 9), Action::Ignored);
}
