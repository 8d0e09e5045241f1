use crowd_levels::aggregate::AverageTable;
use crowd_levels::classify::Descriptor;
use crowd_levels::config::{get_configured_websites, WebsiteConfig};
use crowd_levels::extract::{ExtractionError, FetchMode};
use crowd_levels::fetcher::{ajax_endpoint, build_sample, check_status, find_site, FetchError};
use crowd_levels::percent::Percentage;
use crowd_levels::scheduler::{daily_cron_signature, plan_job, run_daily, run_scrape, JobKind};
use crowd_levels::store::{CrowdSample, SampleStore};

fn sample(ts: u64, hundredths: u64, url: &str, name: &str) -> CrowdSample {
    CrowdSample {
        timestamp: ts,
        percentage: Percentage { hundredths },
        descriptor: Descriptor::Moderate,
        site_url: url.to_string(),
        site_name: name.to_string(),
    }
}

fn site(url: &str, name: &str) -> WebsiteConfig {
    WebsiteConfig { url: url.to_string(), name: name.to_string() }
}

#[test]
fn the_daily_signature_selects_the_daily_job() {
    let daily = daily_cron_signature().to_string();
    assert_eq!(plan_job(&daily, &daily), JobKind::Daily);
    assert_eq!(plan_job(&String::from("*/10 * * * *"), &daily), JobKind::Scrape);
    assert_eq!(plan_job(&String::from(""), &daily), JobKind::Scrape);
}

#[test]
fn one_failing_site_does_not_block_the_others() {
    let mut store = SampleStore::new();
    let s1 = sample(100, 1000, "a", "Site A");
    let s3 = sample(110, 3000, "c", "Site C");
    let outcomes = vec![
        Ok(s1),
        Err(FetchError::Http(500)),
        Ok(s3),
    ];
    let stored = run_scrape(&mut store, &outcomes);
    assert_eq!(stored, 2);
    let a = String::from("a");
    let c = String::from("c");
    assert_eq!(store.query_latest(Some(&a)).unwrap().unwrap().timestamp, 100);
    assert_eq!(store.query_latest(Some(&c)).unwrap().unwrap().timestamp, 110);
    let b = String::from("b");
    assert_eq!(store.query_latest(Some(&b)).unwrap(), None);
}

#[test]
fn all_failures_still_complete_the_scrape() {
    let mut store = SampleStore::new();
    let outcomes: Vec<Result<CrowdSample, FetchError>> = vec![
        Err(FetchError::Network),
        Err(FetchError::Extraction(ExtractionError::NotFound)),
    ];
    assert_eq!(run_scrape(&mut store, &outcomes), 0);
    assert_eq!(store.query_latest(None).unwrap(), None);
}

#[test]
fn the_daily_job_recomputes_averages() {
    let mut store = SampleStore::new();
    // 2024-01-01 14:00 UTC, a Monday.
    store.append(sample(1704117600, 2000, "a", "Site A")).unwrap();
    let sites = vec![site("a", "Site A")];
    let mut table = AverageTable::new();
    run_daily(&mut table, &store, &sites, 1704121200).unwrap();
    assert_eq!(table.len(), 1);
    assert_eq!(table.get(0).average_hundredths, 2000);
}

#[test]
fn non_success_statuses_fail_with_http() {
    assert_eq!(check_status(199), Err(FetchError::Http(199)));
    assert_eq!(check_status(200), Ok(()));
    assert_eq!(check_status(299), Ok(()));
    assert_eq!(check_status(300), Err(FetchError::Http(300)));
    assert_eq!(check_status(404), Err(FetchError::Http(404)));
}

#[test]
fn build_sample_assembles_the_observation() {
    let w = site("https://gym.example/", "Gym");
    let html = r#"<div class="pointer" style="margin-left: 55%"></div>"#;
    let s = build_sample(&w, FetchMode::Markup, 200, html, 4242).unwrap();
    assert_eq!(s.timestamp, 4242);
    assert_eq!(s.percentage, Percentage { hundredths: 5500 });
    assert_eq!(s.descriptor, Descriptor::Moderate);
    assert_eq!(s.site_url, "https://gym.example/");
    assert_eq!(s.site_name, "Gym");
}

#[test]
fn build_sample_surfaces_http_and_extraction_failures() {
    let w = site("https://gym.example/", "Gym");
    assert_eq!(
        build_sample(&w, FetchMode::Markup, 404, "irrelevant", 0),
        Err(FetchError::Http(404))
    );
    assert_eq!(
        build_sample(&w, FetchMode::Markup, 200, "<p>nothing</p>", 0),
        Err(FetchError::Extraction(ExtractionError::NotFound))
    );
    assert_eq!(
        build_sample(&w, FetchMode::Structured, 200, "{}", 0),
        Err(FetchError::Extraction(ExtractionError::MissingField))
    );
}

#[test]
fn build_sample_reads_structured_payloads() {
    let w = site("https://gym.example/", "Gym");
    let s = build_sample(&w, FetchMode::Structured, 200, r#"{"level": 85}"#, 7).unwrap();
    assert_eq!(s.percentage, Percentage { hundredths: 8500 });
    assert_eq!(s.descriptor, Descriptor::VeryHigh);
}

#[test]
fn the_ajax_endpoint_is_derived_from_the_site_url() {
    assert_eq!(
        ajax_endpoint("https://gym.example/"),
        "https://gym.example/wp-admin/admin-ajax.php?action=cxo_get_crowd_indicator"
    );
}

#[test]
fn the_configured_site_list_is_fixed() {
    let sites = get_configured_websites();
    assert_eq!(sites.len(), 3);
    assert_eq!(sites[0].url, "https://www.boulderwelt-muenchen-ost.de/");
    assert_eq!(sites[1].url, "https://www.boulderwelt-muenchen-west.de/");
    assert_eq!(sites[2].url, "https://www.boulderwelt-muenchen-sued.de/");
}

#[test]
fn site_lookup_finds_configured_sites_only() {
    let sites = get_configured_websites();
    let known = String::from("https://www.boulderwelt-muenchen-west.de/");
    let unknown = String::from("https://elsewhere.example/");
    assert_eq!(find_site(&sites, &known).unwrap().name, "Boulderwelt München West");
    assert!(find_site(&sites, &unknown).is_none());
}
