//! Rolling per-weekday/per-hour averages over the trailing window.
//!
//! `recompute` reads, for each configured site, the samples of the trailing
//! 28 days, groups them into (day-of-week, hour) buckets, and upserts one
//! summary row per non-empty bucket: the mean percentage rounded to two
//! decimal places (half up), the exact contributing count, and the run's
//! timestamp. The upsert overwrites on key conflict, never merges: each row
//! is recomputed from the window, not incrementally maintained. Buckets that
//! fell out of the window keep their stale rows — an accepted staleness, as
//! no row is ever deleted.

use vstd::prelude::*;
use vstd::pervasive::VecAdditionalExecFns;
use crate::store::{CrowdSample, SampleStore};
use crate::config::WebsiteConfig;

verus! {

/// The trailing window: 28 days of seconds.
pub const WINDOW_SECONDS: u64 = 2419200;

/// One summary row, unique per (site url, day of week, hour).
#[derive(Debug, PartialEq)]
pub struct HourlyAverage {
    pub site_url: String,
    pub site_name: String,
    /// 0 = Sunday … 6 = Saturday.
    pub day_of_week: u8,
    /// 0–23.
    pub hour: u8,
    /// Mean percentage in hundredths, rounded half up.
    pub average_hundredths: u64,
    /// Exactly how many samples contributed to the mean.
    pub sample_count: u64,
    /// When the row was last recomputed, seconds since the epoch.
    pub last_updated: u64,
}

impl HourlyAverage {
    /// An owned copy equal to this row.
    pub fn duplicate(&self) -> (r: HourlyAverage)
        ensures
            r == *self,
    {
        HourlyAverage {
            site_url: self.site_url.clone(),
            site_name: self.site_name.clone(),
            day_of_week: self.day_of_week,
            hour: self.hour,
            average_hundredths: self.average_hundredths,
            sample_count: self.sample_count,
            last_updated: self.last_updated,
        }
    }
}

/// An aggregation failure, as surfaced by a fallible backing transport.
#[derive(Clone, Copy, PartialEq, Eq, Structural, Debug)]
pub enum AggregationError {
    ReadFailed,
    WriteFailed,
}

/// Day of week of an epoch timestamp, 0 = Sunday … 6 = Saturday.
pub open spec fn day_of_week_spec(ts: u64) -> int {
    ((ts as int / 86400) + 4) % 7
}

/// Hour of day of an epoch timestamp, 0–23.
pub open spec fn hour_spec(ts: u64) -> int {
    (ts as int % 86400) / 3600
}

pub fn day_of_week_of(ts: u64) -> (d: u8)
    ensures
        d as int == day_of_week_spec(ts),
        d < 7,
{
    ((ts / 86400 + 4) % 7) as u8
}

pub fn hour_of(ts: u64) -> (h: u8)
    ensures
        h as int == hour_spec(ts),
        h < 24,
{
    (ts % 86400 / 3600) as u8
}

/// Whether a timestamp falls in the trailing window ending at `now`.
pub open spec fn in_window(ts: u64, now: u64) -> bool {
    ts + WINDOW_SECONDS >= now
}

/// Whether a sample belongs to one site's (day-of-week, hour) bucket of the
/// window ending at `now`.
pub open spec fn in_bucket(s: CrowdSample, url: Seq<char>, dow: int, hour: int, now: u64) -> bool {
    &&& s.site_url@ == url
    &&& in_window(s.timestamp, now)
    &&& day_of_week_spec(s.timestamp) == dow
    &&& hour_spec(s.timestamp) == hour
}

/// How many samples fall in the bucket.
pub open spec fn bucket_count(
    samples: Seq<CrowdSample>,
    url: Seq<char>,
    dow: int,
    hour: int,
    now: u64,
) -> int
    decreases samples.len(),
{
    if samples.len() == 0 {
        0
    } else {
        (if in_bucket(samples[0], url, dow, hour, now) {
            1int
        } else {
            0int
        }) + bucket_count(samples.drop_first(), url, dow, hour, now)
    }
}

/// The sum, in hundredths, of the percentages of the bucket's samples.
pub open spec fn bucket_sum(
    samples: Seq<CrowdSample>,
    url: Seq<char>,
    dow: int,
    hour: int,
    now: u64,
) -> int
    decreases samples.len(),
{
    if samples.len() == 0 {
        0
    } else {
        (if in_bucket(samples[0], url, dow, hour, now) {
            samples[0].percentage.hundredths as int
        } else {
            0int
        }) + bucket_sum(samples.drop_first(), url, dow, hour, now)
    }
}

/// The mean rounded half up to the nearest hundredth.
pub open spec fn rounded_mean(sum: int, count: int) -> int
    recommends
        count > 0,
{
    (2 * sum + count) / (2 * count)
}

/// The summary row recomputed for one non-empty bucket.
pub open spec fn bucket_row(
    site: WebsiteConfig,
    dow: int,
    hour: int,
    samples: Seq<CrowdSample>,
    now: u64,
) -> HourlyAverage {
    HourlyAverage {
        site_url: site.url,
        site_name: site.name,
        day_of_week: dow as u8,
        hour: hour as u8,
        average_hundredths: rounded_mean(
            bucket_sum(samples, site.url@, dow, hour, now),
            bucket_count(samples, site.url@, dow, hour, now),
        ) as u64,
        sample_count: bucket_count(samples, site.url@, dow, hour, now) as u64,
        last_updated: now,
    }
}

/// Whether two summary rows share the (site url, day, hour) key.
pub open spec fn same_key(a: HourlyAverage, b: HourlyAverage) -> bool {
    &&& a.site_url@ == b.site_url@
    &&& a.day_of_week == b.day_of_week
    &&& a.hour == b.hour
}

/// The first row sharing `row`'s key, or the length when none does.
pub open spec fn key_index(rows: Seq<HourlyAverage>, row: HourlyAverage) -> int
    decreases rows.len(),
{
    if rows.len() == 0 {
        0
    } else if same_key(rows[0], row) {
        0
    } else {
        1 + key_index(rows.drop_first(), row)
    }
}

/// One upsert: overwrite the row with the same key in place, or append.
pub open spec fn upsert_spec(rows: Seq<HourlyAverage>, row: HourlyAverage) -> Seq<HourlyAverage> {
    let i = key_index(rows, row);
    if i < rows.len() {
        rows.update(i, row)
    } else {
        rows.push(row)
    }
}

pub proof fn lemma_key_index_unique(rows: Seq<HourlyAverage>, row: HourlyAverage, i: int)
    requires
        0 <= i <= rows.len(),
        forall|k: int| 0 <= k < i ==> !same_key(#[trigger] rows[k], row),
        i < rows.len() ==> same_key(rows[i], row),
    ensures
        key_index(rows, row) == i,
    decreases rows.len(),
{
    if rows.len() == 0 {
    } else if same_key(rows[0], row) {
        assert(i == 0);
    } else {
        assert(i >= 1);
        let rest = rows.drop_first();
        assert forall|k: int| 0 <= k < i - 1 implies !same_key(#[trigger] rest[k], row) by {
            assert(rest[k] == rows[k + 1]);
        }
        if i - 1 < rest.len() {
            assert(rest[i - 1] == rows[i]);
        }
        lemma_key_index_unique(rest, row, i - 1);
    }
}

pub proof fn lemma_key_index_bounds(rows: Seq<HourlyAverage>, row: HourlyAverage)
    ensures
        0 <= key_index(rows, row) <= rows.len(),
    decreases rows.len(),
{
    if rows.len() > 0 && !same_key(rows[0], row) {
        lemma_key_index_bounds(rows.drop_first(), row);
    }
}

/// The verified model of the summary table.
pub struct AverageTable {
    rows: Vec<HourlyAverage>,
}

impl View for AverageTable {
    type V = Seq<HourlyAverage>;

    closed spec fn view(&self) -> Seq<HourlyAverage> {
        self.rows@
    }
}

impl AverageTable {
    /// The table invariant: the (site url, day, hour) key is unique.
    pub open spec fn wf(self) -> bool {
        unique_keys(self@)
    }

    /// An empty table.
    pub fn new() -> (t: AverageTable)
        ensures
            t@ == Seq::<HourlyAverage>::empty(),
            t.wf(),
    {
        AverageTable { rows: Vec::new() }
    }

    pub fn len(&self) -> (n: usize)
        ensures
            n == self@.len(),
    {
        self.rows.len()
    }

    pub fn get(&self, i: usize) -> (r: &HourlyAverage)
        requires
            i < self@.len(),
        ensures
            *r == self@[i as int],
    {
        &self.rows[i]
    }

    /// Overwrites the row with `row`'s key, or appends one; never merges
    /// with the previous value.
    pub fn upsert(&mut self, row: HourlyAverage)
        requires
            old(self).wf(),
        ensures
            final(self)@ == upsert_spec(old(self)@, row),
            final(self).wf(),
    {
        let ghost rows0 = self.rows@;
        proof {
            assert forall|x: int, y: int| 0 <= x < y < rows0.len() implies !same_key(
                #[trigger] rows0[x],
                #[trigger] rows0[y],
            ) by {
                assert(rows0[x] == self@[x]);
                assert(rows0[y] == self@[y]);
            }
        }
        let mut i: usize = 0;
        while i < self.rows.len()
            invariant
                i <= self.rows@.len(),
                self.rows@ == rows0,
                rows0 == old(self)@,
                forall|x: int, y: int|
                    0 <= x < y < rows0.len() ==> !same_key(
                        #[trigger] rows0[x],
                        #[trigger] rows0[y],
                    ),
                forall|k: int| 0 <= k < i ==> !same_key(#[trigger] rows0[k], row),
            decreases self.rows@.len() - i,
        {
            let candidate = &self.rows[i];
            let keys_match = candidate.site_url == row.site_url
                && candidate.day_of_week == row.day_of_week && candidate.hour == row.hour;
            if keys_match {
                proof {
                    lemma_key_index_unique(rows0, row, i as int);
                }
                self.rows.set(i, row);
                proof {
                    let rows1 = self.rows@;
                    assert forall|a: int, b: int| 0 <= a < b < rows1.len() implies !same_key(
                        #[trigger] rows1[a],
                        #[trigger] rows1[b],
                    ) by {
                        if a != i && b != i {
                            assert(rows1[a] == rows0[a]);
                            assert(rows1[b] == rows0[b]);
                        } else if a == i {
                            assert(rows1[b] == rows0[b]);
                            assert(same_key(rows0[a], row));
                            assert(!same_key(rows0[a], rows0[b]));
                        } else {
                            assert(rows1[a] == rows0[a]);
                            assert(same_key(rows0[b], row));
                            assert(!same_key(rows0[a], rows0[b]));
                        }
                    }
                }
                return ;
            }
            i = i + 1;
        }
        proof {
            lemma_key_index_unique(rows0, row, rows0.len() as int);
        }
        self.rows.push(row);
        proof {
            let rows1 = self.rows@;
            assert forall|a: int, b: int| 0 <= a < b < rows1.len() implies !same_key(
                #[trigger] rows1[a],
                #[trigger] rows1[b],
            ) by {
                if b < rows1.len() - 1 {
                    assert(rows1[a] == rows0[a]);
                    assert(rows1[b] == rows0[b]);
                } else {
                    assert(rows1[a] == rows0[a]);
                    assert(rows1[b] == row);
                }
            }
        }
    }
}

/// The table after one site's buckets, from bucket index `b` (of 168) on,
/// have been recomputed and upserted; empty buckets leave no row.
pub open spec fn apply_buckets(
    rows: Seq<HourlyAverage>,
    site: WebsiteConfig,
    samples: Seq<CrowdSample>,
    now: u64,
    b: int,
) -> Seq<HourlyAverage>
    decreases 168 - b,
{
    if b < 0 || b >= 168 {
        rows
    } else {
        let dow = b / 24;
        let hour = b % 24;
        let next = if bucket_count(samples, site.url@, dow, hour, now) > 0 {
            upsert_spec(rows, bucket_row(site, dow, hour, samples, now))
        } else {
            rows
        };
        apply_buckets(next, site, samples, now, b + 1)
    }
}

/// The table after every listed site's buckets have been recomputed, in
/// list order.
pub open spec fn apply_sites(
    rows: Seq<HourlyAverage>,
    sites: Seq<WebsiteConfig>,
    samples: Seq<CrowdSample>,
    now: u64,
) -> Seq<HourlyAverage>
    decreases sites.len(),
{
    if sites.len() == 0 {
        rows
    } else {
        apply_sites(
            apply_buckets(rows, sites[0], samples, now, 0),
            sites.drop_first(),
            samples,
            now,
        )
    }
}

/// What one `recompute` run leaves in the table.
pub open spec fn recompute_spec(
    rows: Seq<HourlyAverage>,
    sites: Seq<WebsiteConfig>,
    samples: Seq<CrowdSample>,
    now: u64,
) -> Seq<HourlyAverage> {
    apply_sites(rows, sites, samples, now)
}

/// Counts and sums one bucket's samples.
fn bucket_stats(store: &SampleStore, url: &String, dow: u8, hour: u8, now: u64) -> (r: (
    usize,
    u128,
))
    requires
        store.wf(),
    ensures
        r.0 == bucket_count(store@, url@, dow as int, hour as int, now),
        r.1 == bucket_sum(store@, url@, dow as int, hour as int, now),
        r.1 <= 10000 * (r.0 as int),
        r.0 <= store@.len(),
{
    let ghost full = store@;
    proof {
        assert(full.skip(0) =~= full);
    }
    let mut count: usize = 0;
    let mut sum: u128 = 0;
    let mut i: usize = 0;
    let n = store.len();
    while i < n
        invariant
            i <= n,
            n == full.len(),
            full == store@,
            store.wf(),
            count <= i,
            sum <= 10000 * (count as int),
            bucket_count(full, url@, dow as int, hour as int, now) == count + bucket_count(
                full.skip(i as int),
                url@,
                dow as int,
                hour as int,
                now,
            ),
            bucket_sum(full, url@, dow as int, hour as int, now) == sum + bucket_sum(
                full.skip(i as int),
                url@,
                dow as int,
                hour as int,
                now,
            ),
        decreases n - i,
    {
        proof {
            assert(full.skip(i as int).drop_first() =~= full.skip(i + 1));
            assert(full.skip(i as int)[0] == full[i as int]);
        }
        let row = store.get(i);
        let site_ok = row.site_url == *url;
        let window_ok = if now <= WINDOW_SECONDS {
            true
        } else {
            row.timestamp >= now - WINDOW_SECONDS
        };
        let time_ok = day_of_week_of(row.timestamp) == dow && hour_of(row.timestamp) == hour;
        if site_ok && window_ok && time_ok {
            proof {
                assert(full[i as int].is_valid());
            }
            count = count + 1;
            sum = sum + row.percentage.hundredths as u128;
        }
        i = i + 1;
    }
    proof {
        assert(full.skip(n as int) =~= Seq::<CrowdSample>::empty());
    }
    (count, sum)
}

impl AverageTable {
    /// Recomputes every listed site's summary rows from the trailing
    /// window ending at `now` and upserts them, overwriting prior values.
    /// The in-memory engine is total, so the run always succeeds; the error
    /// type exists for callers that put the table behind a fallible
    /// transport.
    pub fn recompute(
        &mut self,
        store: &SampleStore,
        sites: &Vec<WebsiteConfig>,
        now: u64,
    ) -> (r: Result<(), AggregationError>)
        requires
            old(self).wf(),
            store.wf(),
        ensures
            final(self)@ == recompute_spec(old(self)@, sites@, store@, now),
            final(self).wf(),
            r is Ok,
    {
        let ghost orig = self@;
        proof {
            assert(sites@.skip(0) =~= sites@);
        }
        let mut si: usize = 0;
        while si < sites.len()
            invariant
                si <= sites@.len(),
                store.wf(),
                self.wf(),
                apply_sites(self@, sites@.skip(si as int), store@, now) == recompute_spec(
                    orig,
                    sites@,
                    store@,
                    now,
                ),
            decreases sites@.len() - si,
        {
            proof {
                assert(sites@.skip(si as int).drop_first() =~= sites@.skip(si + 1));
                assert(sites@.skip(si as int)[0] == sites@[si as int]);
            }
            let site = &sites[si];
            let ghost entry = self@;
            let mut b: usize = 0;
            while b < 168
                invariant
                    b <= 168,
                    store.wf(),
                    self.wf(),
                    *site == sites@[si as int],
                    si < sites@.len(),
                    apply_buckets(self@, sites@[si as int], store@, now, b as int) == apply_buckets(
                        entry,
                        sites@[si as int],
                        store@,
                        now,
                        0,
                    ),
                decreases 168 - b,
            {
                let dow: u8 = (b / 24) as u8;
                let hour: u8 = (b % 24) as u8;
                let (count, sum) = bucket_stats(store, &site.url, dow, hour, now);
                if count > 0 {
                    let avg128: u128 = (2 * sum + count as u128) / (2 * count as u128);
                    proof {
                        let s = bucket_sum(store@, site.url@, dow as int, hour as int, now);
                        let c = bucket_count(store@, site.url@, dow as int, hour as int, now);
                        assert((2 * s + c) / (2 * c) <= 10000 && (2 * s + c) / (2 * c) >= 0)
                            by (nonlinear_arith)
                            requires
                                c >= 1,
                                0 <= s <= 10000 * c,
                        ;
                    }
                    let row = HourlyAverage {
                        site_url: site.url.clone(),
                        site_name: site.name.clone(),
                        day_of_week: dow,
                        hour,
                        average_hundredths: avg128 as u64,
                        sample_count: count as u64,
                        last_updated: now,
                    };
                    proof {
                        assert(row == bucket_row(
                            sites@[si as int],
                            dow as int,
                            hour as int,
                            store@,
                            now,
                        ));
                    }
                    self.upsert(row);
                }
                b = b + 1;
            }
            proof {
                assert(apply_buckets(self@, sites@[si as int], store@, now, 168) == self@);
            }
            si = si + 1;
        }
        proof {
            assert(sites@.skip(sites@.len() as int) =~= Seq::<WebsiteConfig>::empty());
        }
        Ok(())
    }
}

/// Rows whose (site url, day, hour) keys are pairwise distinct.
pub open spec fn unique_keys(t: Seq<HourlyAverage>) -> bool {
    forall|i: int, j: int| 0 <= i < j < t.len() ==> !same_key(#[trigger] t[i], #[trigger] t[j])
}

/// No row before the key's first match shares the key.
pub proof fn lemma_key_index_first(rows: Seq<HourlyAverage>, row: HourlyAverage)
    ensures
        forall|k: int| 0 <= k < key_index(rows, row) ==> !same_key(#[trigger] rows[k], row),
        key_index(rows, row) < rows.len() ==> same_key(rows[key_index(rows, row)], row),
    decreases rows.len(),
{
    lemma_key_index_bounds(rows, row);
    if rows.len() > 0 && !same_key(rows[0], row) {
        let rest = rows.drop_first();
        lemma_key_index_first(rest, row);
        lemma_key_index_bounds(rest, row);
        let ki = key_index(rows, row);
        assert(ki == 1 + key_index(rest, row));
        assert forall|k: int| 0 <= k < ki implies !same_key(#[trigger] rows[k], row) by {
            if k > 0 {
                assert(rows[k] == rest[k - 1]);
                assert(!same_key(rest[k - 1], row));
            }
        }
        if ki < rows.len() {
            assert(rows[ki] == rest[ki - 1]);
        }
    }
}

/// After an upsert the row sits in the table at its key.
pub proof fn lemma_upsert_places(t: Seq<HourlyAverage>, row: HourlyAverage)
    ensures
        key_index(upsert_spec(t, row), row) < upsert_spec(t, row).len(),
        upsert_spec(t, row)[key_index(upsert_spec(t, row), row)] == row,
{
    lemma_key_index_bounds(t, row);
    lemma_key_index_first(t, row);
    let ki = key_index(t, row);
    let n = upsert_spec(t, row);
    assert forall|k: int| 0 <= k < ki implies !same_key(#[trigger] n[k], row) by {
        assert(n[k] == t[k]);
    }
    lemma_key_index_unique(n, row, ki);
}

/// An upsert of a different key leaves a settled row settled, in place.
pub proof fn lemma_upsert_preserves_other(
    t: Seq<HourlyAverage>,
    row: HourlyAverage,
    other: HourlyAverage,
)
    requires
        !same_key(row, other),
        key_index(t, other) < t.len(),
        t[key_index(t, other)] == other,
    ensures
        key_index(upsert_spec(t, row), other) == key_index(t, other),
        upsert_spec(t, row)[key_index(t, other)] == other,
        upsert_spec(t, row).len() >= t.len(),
{
    lemma_key_index_bounds(t, row);
    lemma_key_index_bounds(t, other);
    lemma_key_index_first(t, row);
    lemma_key_index_first(t, other);
    let ki = key_index(t, row);
    let ko = key_index(t, other);
    let n = upsert_spec(t, row);
    if ki < t.len() {
        assert(ki != ko);
        assert forall|k: int| 0 <= k < ko implies !same_key(#[trigger] n[k], other) by {
            if k == ki {
                assert(n[k] == row);
            } else {
                assert(n[k] == t[k]);
            }
        }
        assert(n[ko] == t[ko]);
        lemma_key_index_unique(n, other, ko);
    } else {
        assert forall|k: int| 0 <= k < ko implies !same_key(#[trigger] n[k], other) by {
            assert(n[k] == t[k]);
        }
        assert(n[ko] == t[ko]);
        lemma_key_index_unique(n, other, ko);
    }
}

/// The summary rows one site's pass upserts, in bucket order from `b` on.
pub open spec fn site_pass_rows(
    site: WebsiteConfig,
    samples: Seq<CrowdSample>,
    now: u64,
    b: int,
) -> Seq<HourlyAverage>
    decreases 168 - b,
{
    if b < 0 || b >= 168 {
        Seq::empty()
    } else {
        let rest = site_pass_rows(site, samples, now, b + 1);
        if bucket_count(samples, site.url@, b / 24, b % 24, now) > 0 {
            seq![bucket_row(site, b / 24, b % 24, samples, now)] + rest
        } else {
            rest
        }
    }
}

/// The summary rows one full recomputation upserts, in pass order.
pub open spec fn pass_rows(
    sites: Seq<WebsiteConfig>,
    samples: Seq<CrowdSample>,
    now: u64,
) -> Seq<HourlyAverage>
    decreases sites.len(),
{
    if sites.len() == 0 {
        Seq::empty()
    } else {
        site_pass_rows(sites[0], samples, now, 0) + pass_rows(sites.drop_first(), samples, now)
    }
}

/// A list of upserts, applied in order.
pub open spec fn fold_upserts(t: Seq<HourlyAverage>, l: Seq<HourlyAverage>) -> Seq<HourlyAverage>
    decreases l.len(),
{
    if l.len() == 0 {
        t
    } else {
        fold_upserts(upsert_spec(t, l[0]), l.drop_first())
    }
}

pub proof fn lemma_fold_upserts_concat(
    t: Seq<HourlyAverage>,
    a: Seq<HourlyAverage>,
    b: Seq<HourlyAverage>,
)
    ensures
        fold_upserts(t, a + b) == fold_upserts(fold_upserts(t, a), b),
    decreases a.len(),
{
    if a.len() == 0 {
        assert(a + b =~= b);
    } else {
        assert((a + b)[0] == a[0]);
        assert((a + b).drop_first() =~= a.drop_first() + b);
        lemma_fold_upserts_concat(upsert_spec(t, a[0]), a.drop_first(), b);
    }
}

/// One site's bucket passes are the fold of its pass rows.
pub proof fn lemma_apply_buckets_flat(
    t: Seq<HourlyAverage>,
    site: WebsiteConfig,
    samples: Seq<CrowdSample>,
    now: u64,
    b: int,
)
    ensures
        apply_buckets(t, site, samples, now, b) == fold_upserts(
            t,
            site_pass_rows(site, samples, now, b),
        ),
    decreases 168 - b,
{
    if 0 <= b < 168 {
        let rest = site_pass_rows(site, samples, now, b + 1);
        if bucket_count(samples, site.url@, b / 24, b % 24, now) > 0 {
            let row = bucket_row(site, b / 24, b % 24, samples, now);
            let rows = site_pass_rows(site, samples, now, b);
            assert(rows[0] == row);
            assert(rows.drop_first() =~= rest);
            lemma_apply_buckets_flat(upsert_spec(t, row), site, samples, now, b + 1);
        } else {
            lemma_apply_buckets_flat(t, site, samples, now, b + 1);
        }
    }
}

/// A full pass is the fold of all sites' pass rows.
pub proof fn lemma_apply_sites_flat(
    t: Seq<HourlyAverage>,
    sites: Seq<WebsiteConfig>,
    samples: Seq<CrowdSample>,
    now: u64,
)
    ensures
        apply_sites(t, sites, samples, now) == fold_upserts(t, pass_rows(sites, samples, now)),
    decreases sites.len(),
{
    if sites.len() > 0 {
        let sp = site_pass_rows(sites[0], samples, now, 0);
        let rest = pass_rows(sites.drop_first(), samples, now);
        lemma_apply_buckets_flat(t, sites[0], samples, now, 0);
        let t1 = fold_upserts(t, sp);
        lemma_apply_sites_flat(t1, sites.drop_first(), samples, now);
        lemma_fold_upserts_concat(t, sp, rest);
    }
}

/// Whether some listed row shares `x`'s key.
pub open spec fn has_key(l: Seq<HourlyAverage>, x: HourlyAverage) -> bool {
    exists|i: int| 0 <= i < l.len() && same_key(#[trigger] l[i], x)
}

/// The last listed row sharing `x`'s key; `x` itself when none does.
pub open spec fn last_key_row(l: Seq<HourlyAverage>, x: HourlyAverage) -> HourlyAverage
    decreases l.len(),
{
    if l.len() == 0 {
        x
    } else if same_key(l.last(), x) {
        l.last()
    } else {
        last_key_row(l.drop_last(), x)
    }
}

pub proof fn lemma_last_key_row_key(l: Seq<HourlyAverage>, x: HourlyAverage)
    requires
        has_key(l, x),
    ensures
        same_key(last_key_row(l, x), x),
    decreases l.len(),
{
    if !same_key(l.last(), x) {
        let w = choose|w: int| 0 <= w < l.len() && same_key(#[trigger] l[w], x);
        assert(l.drop_last()[w] == l[w]);
        lemma_last_key_row_key(l.drop_last(), x);
    }
}

pub proof fn lemma_last_key_row_cong(l: Seq<HourlyAverage>, x: HourlyAverage, y: HourlyAverage)
    requires
        has_key(l, x),
        same_key(x, y),
    ensures
        last_key_row(l, x) == last_key_row(l, y),
    decreases l.len(),
{
    if !same_key(l.last(), x) {
        let w = choose|w: int| 0 <= w < l.len() && same_key(#[trigger] l[w], x);
        assert(l.drop_last()[w] == l[w]);
        lemma_last_key_row_cong(l.drop_last(), x, y);
    }
}

/// When a later row shares the key, the head does not decide the result.
pub proof fn lemma_last_key_row_cons_tail(
    r: HourlyAverage,
    l: Seq<HourlyAverage>,
    x: HourlyAverage,
)
    requires
        has_key(l, x),
    ensures
        last_key_row(seq![r] + l, x) == last_key_row(l, x),
    decreases l.len(),
{
    let c = seq![r] + l;
    assert(c.last() == l.last());
    if !same_key(l.last(), x) {
        assert(c.drop_last() =~= seq![r] + l.drop_last());
        let w = choose|w: int| 0 <= w < l.len() && same_key(#[trigger] l[w], x);
        assert(l.drop_last()[w] == l[w]);
        lemma_last_key_row_cons_tail(r, l.drop_last(), x);
    }
}

/// When only the head shares the key, it is the result.
pub proof fn lemma_last_key_row_cons_only(
    r: HourlyAverage,
    l: Seq<HourlyAverage>,
    x: HourlyAverage,
)
    requires
        !has_key(l, x),
        same_key(r, x),
    ensures
        last_key_row(seq![r] + l, x) == r,
    decreases l.len(),
{
    let c = seq![r] + l;
    if l.len() == 0 {
        assert(c.last() == r);
    } else {
        assert(c.last() == l.last());
        assert(!same_key(l.last(), x));
        assert(c.drop_last() =~= seq![r] + l.drop_last());
        assert forall|w: int| 0 <= w < l.drop_last().len() implies !same_key(
            #[trigger] l.drop_last()[w],
            x,
        ) by {
            assert(l.drop_last()[w] == l[w]);
        }
        lemma_last_key_row_cons_only(r, l.drop_last(), x);
    }
}

pub proof fn lemma_key_index_cong(t: Seq<HourlyAverage>, x: HourlyAverage, y: HourlyAverage)
    requires
        same_key(x, y),
    ensures
        key_index(t, x) == key_index(t, y),
    decreases t.len(),
{
    if t.len() > 0 && !same_key(t[0], x) {
        lemma_key_index_cong(t.drop_first(), x, y);
    }
}

/// With unique keys, a row's key finds it at its own position.
pub proof fn lemma_key_index_self(t: Seq<HourlyAverage>, i: int)
    requires
        unique_keys(t),
        0 <= i < t.len(),
    ensures
        key_index(t, t[i]) == i,
{
    assert forall|k: int| 0 <= k < i implies !same_key(#[trigger] t[k], t[i]) by {
        assert(!same_key(t[k], t[i]));
    }
    lemma_key_index_unique(t, t[i], i);
}

/// Replacing a row by one of the same key moves no key's first match.
pub proof fn lemma_key_index_update(
    t: Seq<HourlyAverage>,
    i: int,
    y: HourlyAverage,
    x: HourlyAverage,
)
    requires
        0 <= i < t.len(),
        same_key(t[i], y),
    ensures
        key_index(t.update(i, y), x) == key_index(t, x),
    decreases t.len(),
{
    let t2 = t.update(i, y);
    if i == 0 {
        assert(t2[0] == y);
        assert(same_key(t2[0], x) == same_key(t[0], x));
        if !same_key(t[0], x) {
            assert(t2.drop_first() =~= t.drop_first());
        }
    } else {
        assert(t2[0] == t[0]);
        if !same_key(t[0], x) {
            assert(t2.drop_first() =~= t.drop_first().update(i - 1, y));
            assert(t.drop_first()[i - 1] == t[i]);
            lemma_key_index_update(t.drop_first(), i - 1, y, x);
        }
    }
}

/// An upsert keeps keys pairwise distinct.
pub proof fn lemma_upsert_keeps_unique(t: Seq<HourlyAverage>, row: HourlyAverage)
    requires
        unique_keys(t),
    ensures
        unique_keys(upsert_spec(t, row)),
{
    lemma_key_index_bounds(t, row);
    lemma_key_index_first(t, row);
    let ki = key_index(t, row);
    let n = upsert_spec(t, row);
    if ki < t.len() {
        assert forall|a: int, b: int| 0 <= a < b < n.len() implies !same_key(
            #[trigger] n[a],
            #[trigger] n[b],
        ) by {
            if a == ki {
                assert(n[b] == t[b]);
                assert(same_key(t[a], row));
                assert(!same_key(t[a], t[b]));
            } else if b == ki {
                assert(n[a] == t[a]);
                assert(same_key(t[b], row));
                assert(!same_key(t[a], t[b]));
            } else {
                assert(n[a] == t[a]);
                assert(n[b] == t[b]);
            }
        }
    } else {
        assert forall|a: int, b: int| 0 <= a < b < n.len() implies !same_key(
            #[trigger] n[a],
            #[trigger] n[b],
        ) by {
            assert(n[a] == t[a]);
            if b < t.len() {
                assert(n[b] == t[b]);
            } else {
                assert(n[b] == row);
                assert(!same_key(t[a], row));
            }
        }
    }
}

pub proof fn lemma_fold_keeps_unique(t: Seq<HourlyAverage>, l: Seq<HourlyAverage>)
    requires
        unique_keys(t),
    ensures
        unique_keys(fold_upserts(t, l)),
    decreases l.len(),
{
    if l.len() > 0 {
        lemma_upsert_keeps_unique(t, l[0]);
        lemma_fold_keeps_unique(upsert_spec(t, l[0]), l.drop_first());
    }
}

/// After a fold, every listed row's key holds the last listed row of that
/// key.
pub proof fn lemma_fold_last_wins(t: Seq<HourlyAverage>, l: Seq<HourlyAverage>)
    ensures
        forall|i: int|
            0 <= i < l.len() ==> {
                let m = fold_upserts(t, l);
                key_index(m, #[trigger] l[i]) < m.len() && m[key_index(m, l[i])] == last_key_row(
                    l,
                    l[i],
                )
            },
    decreases l.len(),
{
    if l.len() > 0 {
        let a = l.drop_last();
        let r = l.last();
        assert(l =~= a + seq![r]);
        lemma_fold_upserts_concat(t, a, seq![r]);
        let m1 = fold_upserts(t, a);
        assert(seq![r].drop_first() =~= Seq::<HourlyAverage>::empty());
        assert(seq![r][0] == r);
        assert(fold_upserts(upsert_spec(m1, r), Seq::<HourlyAverage>::empty()) == upsert_spec(
            m1,
            r,
        ));
        assert(fold_upserts(m1, seq![r]) == upsert_spec(m1, r));
        let m = upsert_spec(m1, r);
        assert(fold_upserts(t, l) == m);
        lemma_fold_last_wins(t, a);
        lemma_upsert_places(m1, r);
        assert forall|i: int|
            0 <= i < l.len() implies {
            let m2 = fold_upserts(t, l);
            key_index(m2, #[trigger] l[i]) < m2.len() && m2[key_index(m2, l[i])] == last_key_row(
                l,
                l[i],
            )
        } by {
            if i == l.len() - 1 {
                assert(last_key_row(l, r) == r);
            } else {
                let x = l[i];
                assert(a[i] == l[i]);
                if same_key(x, r) {
                    lemma_key_index_cong(m, x, r);
                    assert(same_key(l[i], x));
                    lemma_last_key_row_cong(l, x, r);
                    assert(last_key_row(l, r) == r);
                } else {
                    let v = last_key_row(a, x);
                    assert(same_key(a[i], x));
                    lemma_last_key_row_key(a, x);
                    lemma_key_index_cong(m1, v, x);
                    lemma_upsert_preserves_other(m1, r, v);
                    lemma_key_index_cong(m, x, v);
                    assert(l.drop_last() =~= a);
                    assert(last_key_row(l, x) == last_key_row(a, x));
                }
            }
        }
    }
}

/// The pointwise effect of a fold whose keys all exist: each touched key's
/// row becomes the last listed row of that key, everything else stays.
pub open spec fn fold_target(t: Seq<HourlyAverage>, l: Seq<HourlyAverage>) -> Seq<HourlyAverage> {
    Seq::new(
        t.len(),
        |i: int|
            if has_key(l, t[i]) {
                last_key_row(l, t[i])
            } else {
                t[i]
            },
    )
}

pub proof fn lemma_fold_pointwise(t: Seq<HourlyAverage>, l: Seq<HourlyAverage>)
    requires
        unique_keys(t),
        forall|i: int| 0 <= i < l.len() ==> key_index(t, #[trigger] l[i]) < t.len(),
    ensures
        fold_upserts(t, l) == fold_target(t, l),
    decreases l.len(),
{
    if l.len() == 0 {
        assert(fold_target(t, l) =~= t);
    } else {
        let r = l[0];
        let lp = l.drop_first();
        let ki = key_index(t, r);
        lemma_key_index_bounds(t, r);
        lemma_key_index_first(t, r);
        assert(same_key(t[ki], r));
        let t2 = t.update(ki, r);
        assert(upsert_spec(t, r) == t2);
        assert forall|a: int, b: int| 0 <= a < b < t2.len() implies !same_key(
            #[trigger] t2[a],
            #[trigger] t2[b],
        ) by {
            if a == ki {
                assert(t2[b] == t[b]);
                assert(!same_key(t[a], t[b]));
            } else if b == ki {
                assert(t2[a] == t[a]);
                assert(!same_key(t[a], t[b]));
            } else {
                assert(t2[a] == t[a]);
                assert(t2[b] == t[b]);
            }
        }
        assert forall|i: int| 0 <= i < lp.len() implies key_index(t2, #[trigger] lp[i])
            < t2.len() by {
            assert(lp[i] == l[i + 1]);
            lemma_key_index_update(t, ki, r, lp[i]);
        }
        lemma_fold_pointwise(t2, lp);
        assert(fold_upserts(t, l) == fold_upserts(t2, lp));
        assert forall|i: int| 0 <= i < t.len() implies fold_target(t2, lp)[i] == fold_target(
            t,
            l,
        )[i] by {
            if i != ki {
                assert(t2[i] == t[i]);
                assert(!same_key(t[i], t[ki]) || !same_key(t[ki], t[i]));
                assert(!same_key(t[i], r));
                if has_key(lp, t[i]) {
                    let w = choose|w: int| 0 <= w < lp.len() && same_key(#[trigger] lp[w], t[i]);
                    assert(l[w + 1] == lp[w]);
                    assert(has_key(l, t[i]));
                    assert(l =~= seq![r] + lp);
                    lemma_last_key_row_cons_tail(r, lp, t[i]);
                } else {
                    if has_key(l, t[i]) {
                        let w = choose|w: int| 0 <= w < l.len() && same_key(#[trigger] l[w], t[i]);
                        assert(w != 0);
                        assert(lp[w - 1] == l[w]);
                        assert(false);
                    }
                }
            } else {
                assert(t2[ki] == r);
                assert(same_key(l[0], t[ki]));
                assert(has_key(l, t[ki]));
                assert(l =~= seq![r] + lp);
                if has_key(lp, r) {
                    let w = choose|w: int| 0 <= w < lp.len() && same_key(#[trigger] lp[w], r);
                    assert(same_key(lp[w], t2[ki]));
                    assert(has_key(lp, t2[ki]));
                    lemma_last_key_row_cons_tail(r, lp, r);
                    lemma_last_key_row_cong(l, t[ki], r);
                    lemma_last_key_row_cong(lp, r, t2[ki]);
                } else {
                    if has_key(lp, t2[ki]) {
                        let w = choose|w: int|
                            0 <= w < lp.len() && same_key(#[trigger] lp[w], t2[ki]);
                        assert(same_key(lp[w], r));
                        assert(false);
                    }
                    lemma_last_key_row_cons_only(r, lp, r);
                    lemma_last_key_row_cong(l, t[ki], r);
                }
            }
        }
        assert(fold_target(t2, lp) =~= fold_target(t, l));
    }
}

/// Recomputation is idempotent: with the same samples, sites and
/// evaluation time, a second run reproduces the summary table bit for bit.
pub proof fn lemma_recompute_idempotent(
    t: Seq<HourlyAverage>,
    sites: Seq<WebsiteConfig>,
    samples: Seq<CrowdSample>,
    now: u64,
)
    requires
        unique_keys(t),
    ensures
        recompute_spec(recompute_spec(t, sites, samples, now), sites, samples, now)
            == recompute_spec(t, sites, samples, now),
{
    let l = pass_rows(sites, samples, now);
    lemma_apply_sites_flat(t, sites, samples, now);
    let t1 = fold_upserts(t, l);
    lemma_apply_sites_flat(t1, sites, samples, now);
    lemma_fold_keeps_unique(t, l);
    lemma_fold_last_wins(t, l);
    lemma_fold_pointwise(t1, l);
    assert forall|i: int| 0 <= i < t1.len() implies fold_target(t1, l)[i] == t1[i] by {
        if has_key(l, t1[i]) {
            let j = choose|j: int| 0 <= j < l.len() && same_key(#[trigger] l[j], t1[i]);
            lemma_key_index_cong(t1, l[j], t1[i]);
            lemma_key_index_self(t1, i);
            assert(t1[i] == last_key_row(l, l[j]));
            assert(same_key(l[j], l[j]));
            lemma_last_key_row_cong(l, l[j], t1[i]);
        }
    }
    assert(fold_target(t1, l) =~= t1);
}

} // verus!
