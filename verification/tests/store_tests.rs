use crowd_levels::classify::Descriptor;
use crowd_levels::percent::Percentage;
use crowd_levels::store::{CrowdSample, HistoryFilter, SampleStore};

fn sample(ts: u64, hundredths: u64, url: &str, name: &str) -> CrowdSample {
    CrowdSample {
        timestamp: ts,
        percentage: Percentage { hundredths },
        descriptor: Descriptor::Moderate,
        site_url: url.to_string(),
        site_name: name.to_string(),
    }
}

fn filled_store() -> SampleStore {
    let mut store = SampleStore::new();
    store.append(sample(100, 1000, "a", "Site A")).unwrap();
    store.append(sample(200, 2000, "b", "Site B")).unwrap();
    store.append(sample(150, 3000, "a", "Site A")).unwrap();
    store
}

#[test]
fn append_then_latest_returns_the_new_sample() {
    let mut store = filled_store();
    store.append(sample(300, 4000, "a", "Site A")).unwrap();
    let url = String::from("a");
    let latest = store.query_latest(Some(&url)).unwrap().unwrap();
    assert_eq!(latest, sample(300, 4000, "a", "Site A"));
}

#[test]
fn latest_is_scoped_to_the_site() {
    let store = filled_store();
    let a = String::from("a");
    let b = String::from("b");
    assert_eq!(store.query_latest(Some(&a)).unwrap().unwrap().timestamp, 150);
    assert_eq!(store.query_latest(Some(&b)).unwrap().unwrap().timestamp, 200);
}

#[test]
fn latest_without_site_is_the_most_recent_row() {
    let store = filled_store();
    assert_eq!(store.query_latest(None).unwrap().unwrap().timestamp, 200);
}

#[test]
fn latest_on_empty_store_is_none_not_an_error() {
    let store = SampleStore::new();
    assert_eq!(store.query_latest(None).unwrap(), None);
    let url = String::from("a");
    assert_eq!(store.query_latest(Some(&url)).unwrap(), None);
}

fn history(store: &SampleStore, url: Option<&str>, since: Option<u64>, until: Option<u64>) -> Vec<u64> {
    let filter = HistoryFilter {
        site_url: url.map(|u| u.to_string()),
        since,
        until,
    };
    store
        .query_history(&filter)
        .unwrap()
        .iter()
        .map(|s| s.timestamp)
        .collect()
}

#[test]
fn history_without_filters_is_everything_most_recent_first() {
    let store = filled_store();
    assert_eq!(history(&store, None, None, None), vec![200, 150, 100]);
}

#[test]
fn history_filters_combine_with_and() {
    let store = filled_store();
    assert_eq!(history(&store, Some("a"), None, None), vec![150, 100]);
    assert_eq!(history(&store, None, Some(100), None), vec![200, 150]);
    assert_eq!(history(&store, None, None, Some(200)), vec![150, 100]);
    assert_eq!(history(&store, None, Some(100), Some(200)), vec![150]);
    assert_eq!(history(&store, Some("a"), Some(100), Some(200)), vec![150]);
    assert_eq!(history(&store, Some("b"), Some(100), Some(200)), Vec::<u64>::new());
}

#[test]
fn history_time_bounds_are_strict() {
    let store = filled_store();
    assert_eq!(history(&store, None, Some(150), None), vec![200]);
    assert_eq!(history(&store, None, None, Some(150)), vec![100]);
    assert_eq!(history(&store, None, Some(150), Some(150)), Vec::<u64>::new());
}

#[test]
fn identical_appends_accumulate_rows() {
    let mut store = SampleStore::new();
    store.append(sample(100, 1000, "a", "Site A")).unwrap();
    store.append(sample(100, 1000, "a", "Site A")).unwrap();
    assert_eq!(history(&store, None, None, None).len(), 2);
}
