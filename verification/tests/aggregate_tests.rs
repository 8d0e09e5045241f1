use crowd_levels::aggregate::{day_of_week_of, hour_of, AverageTable, HourlyAverage};
use crowd_levels::classify::Descriptor;
use crowd_levels::config::WebsiteConfig;
use crowd_levels::percent::Percentage;
use crowd_levels::report::weekday_name;
use crowd_levels::store::{CrowdSample, SampleStore};

// 2024-01-01 14:00:00 UTC, a Monday.
const MONDAY_14: u64 = 1704117600;
const DAY: u64 = 86400;

fn sample(ts: u64, hundredths: u64, url: &str, name: &str) -> CrowdSample {
    CrowdSample {
        timestamp: ts,
        percentage: Percentage { hundredths },
        descriptor: Descriptor::Moderate,
        site_url: url.to_string(),
        site_name: name.to_string(),
    }
}

fn site(url: &str, name: &str) -> WebsiteConfig {
    WebsiteConfig { url: url.to_string(), name: name.to_string() }
}

fn rows_of(table: &AverageTable) -> Vec<HourlyAverage> {
    let mut out = Vec::new();
    let mut i = 0;
    while i < table.len() {
        out.push(table.get(i).duplicate());
        i += 1;
    }
    out
}

#[test]
fn timestamps_split_into_weekday_and_hour() {
    assert_eq!(day_of_week_of(MONDAY_14), 1);
    assert_eq!(hour_of(MONDAY_14), 14);
    // The epoch itself was a Thursday at midnight.
    assert_eq!(day_of_week_of(0), 4);
    assert_eq!(hour_of(0), 0);
}

#[test]
fn weekday_names() {
    assert_eq!(weekday_name(0), "Sunday");
    assert_eq!(weekday_name(1), "Monday");
    assert_eq!(weekday_name(6), "Saturday");
}

#[test]
fn three_samples_in_one_bucket_average_exactly() {
    let mut store = SampleStore::new();
    store.append(sample(MONDAY_14, 1000, "a", "Site A")).unwrap();
    store.append(sample(MONDAY_14 + 60, 2000, "a", "Site A")).unwrap();
    store.append(sample(MONDAY_14 + 120, 3000, "a", "Site A")).unwrap();
    let sites = vec![site("a", "Site A")];
    let mut table = AverageTable::new();
    let now = MONDAY_14 + 3600;
    table.recompute(&store, &sites, now).unwrap();
    let rows = rows_of(&table);
    assert_eq!(rows.len(), 1);
    assert_eq!(rows[0].site_url, "a");
    assert_eq!(rows[0].site_name, "Site A");
    assert_eq!(rows[0].day_of_week, 1);
    assert_eq!(rows[0].hour, 14);
    assert_eq!(rows[0].average_hundredths, 2000);
    assert_eq!(rows[0].sample_count, 3);
    assert_eq!(rows[0].last_updated, now);
}

#[test]
fn the_mean_rounds_half_up_to_two_decimals() {
    let mut store = SampleStore::new();
    store.append(sample(MONDAY_14, 1000, "a", "Site A")).unwrap();
    store.append(sample(MONDAY_14 + 60, 1501, "a", "Site A")).unwrap();
    let sites = vec![site("a", "Site A")];
    let mut table = AverageTable::new();
    table.recompute(&store, &sites, MONDAY_14 + 3600).unwrap();
    let rows = rows_of(&table);
    // The exact mean is 12.505%; it rounds up to 12.51%.
    assert_eq!(rows[0].average_hundredths, 1251);
    assert_eq!(rows[0].sample_count, 2);
}

#[test]
fn recompute_twice_is_identical() {
    let mut store = SampleStore::new();
    store.append(sample(MONDAY_14, 1000, "a", "Site A")).unwrap();
    store.append(sample(MONDAY_14 + 60, 2000, "a", "Site A")).unwrap();
    store.append(sample(MONDAY_14 + 7200, 4000, "a", "Site A")).unwrap();
    store.append(sample(MONDAY_14 + DAY, 5000, "b", "Site B")).unwrap();
    let sites = vec![site("a", "Site A"), site("b", "Site B")];
    let mut table = AverageTable::new();
    let now = MONDAY_14 + 2 * DAY;
    table.recompute(&store, &sites, now).unwrap();
    let first = rows_of(&table);
    table.recompute(&store, &sites, now).unwrap();
    let second = rows_of(&table);
    assert_eq!(first, second);
}

#[test]
fn samples_outside_the_window_do_not_count() {
    let mut store = SampleStore::new();
    // Exactly four weeks earlier: the same weekday and hour bucket.
    store.append(sample(MONDAY_14 - 28 * DAY, 9000, "a", "Site A")).unwrap();
    store.append(sample(MONDAY_14, 1000, "a", "Site A")).unwrap();
    let sites = vec![site("a", "Site A")];
    let mut table = AverageTable::new();
    table.recompute(&store, &sites, MONDAY_14 + 3600).unwrap();
    let rows = rows_of(&table);
    assert_eq!(rows.len(), 1);
    assert_eq!(rows[0].average_hundredths, 1000);
    assert_eq!(rows[0].sample_count, 1);
}

#[test]
fn recompute_overwrites_and_never_merges() {
    let mut store = SampleStore::new();
    store.append(sample(MONDAY_14, 1000, "a", "Site A")).unwrap();
    let sites = vec![site("a", "Site A")];
    let mut table = AverageTable::new();
    let now = MONDAY_14 + 3600;
    table.recompute(&store, &sites, now).unwrap();
    assert_eq!(rows_of(&table)[0].average_hundredths, 1000);
    store.append(sample(MONDAY_14 + 60, 3000, "a", "Site A")).unwrap();
    table.recompute(&store, &sites, now).unwrap();
    let rows = rows_of(&table);
    assert_eq!(rows.len(), 1);
    assert_eq!(rows[0].average_hundredths, 2000);
    assert_eq!(rows[0].sample_count, 2);
}

#[test]
fn buckets_below_the_window_keep_their_stale_rows() {
    let mut store = SampleStore::new();
    store.append(sample(MONDAY_14, 4000, "a", "Site A")).unwrap();
    let sites = vec![site("a", "Site A")];
    let mut table = AverageTable::new();
    let now1 = MONDAY_14 + 3600;
    table.recompute(&store, &sites, now1).unwrap();
    assert_eq!(rows_of(&table).len(), 1);
    // A month later the sample has left the window; the bucket produces no
    // row, and the old row stays as it was.
    let now2 = now1 + 30 * DAY;
    table.recompute(&store, &sites, now2).unwrap();
    let rows = rows_of(&table);
    assert_eq!(rows.len(), 1);
    assert_eq!(rows[0].average_hundredths, 4000);
    assert_eq!(rows[0].sample_count, 1);
    assert_eq!(rows[0].last_updated, now1);
}

#[test]
fn read_averages_groups_by_site_then_weekday() {
    let mut store = SampleStore::new();
    store.append(sample(MONDAY_14, 1000, "a", "Site A")).unwrap();
    store.append(sample(MONDAY_14 + 3600, 2000, "a", "Site A")).unwrap();
    store.append(sample(MONDAY_14 + DAY, 3000, "a", "Site A")).unwrap();
    store.append(sample(MONDAY_14, 5000, "b", "Site B")).unwrap();
    let sites = vec![site("a", "Site A"), site("b", "Site B")];
    let mut table = AverageTable::new();
    table.recompute(&store, &sites, MONDAY_14 + 2 * DAY).unwrap();

    let groups = table.read_averages(None);
    assert_eq!(groups.len(), 2);
    let a = groups.iter().find(|g| g.site_name == "Site A").unwrap();
    let b = groups.iter().find(|g| g.site_name == "Site B").unwrap();
    // Site A has Monday (hours 14 and 15) and Tuesday (hour 14).
    assert_eq!(a.days.len(), 2);
    let monday = a.days.iter().find(|d| d.day_of_week == 1).unwrap();
    let tuesday = a.days.iter().find(|d| d.day_of_week == 2).unwrap();
    assert_eq!(monday.hours.len(), 2);
    assert_eq!(tuesday.hours.len(), 1);
    assert_eq!(tuesday.hours[0].hour, 14);
    assert_eq!(tuesday.hours[0].average_hundredths, 3000);
    // Site B has a single Monday hour.
    assert_eq!(b.days.len(), 1);
    assert_eq!(b.days[0].hours[0].average_hundredths, 5000);

    // Scoped to one site URL, only that site's rows appear.
    let url = String::from("b");
    let scoped = table.read_averages(Some(&url));
    assert_eq!(scoped.len(), 1);
    assert_eq!(scoped[0].site_name, "Site B");
}
