//! The append-only store of crowd samples.
//!
//! The store models the raw-sample table: rows are kept ordered by
//! timestamp, every stored percentage lies on the 0–100 scale, and rows are
//! never updated or deleted. `append` inserts one row; `query_history`
//! returns the matching rows most recent first; `query_latest` returns the
//! most recent row, optionally scoped to one site. The in-memory engine is
//! total, so every operation reports success; the error type exists for
//! callers that put the store behind a fallible transport.

use vstd::prelude::*;
use crate::percent::Percentage;
use crate::classify::Descriptor;

verus! {

/// One timestamped occupancy observation for one site.
#[derive(Debug, PartialEq)]
pub struct CrowdSample {
    /// Seconds since the epoch.
    pub timestamp: u64,
    pub percentage: Percentage,
    pub descriptor: Descriptor,
    pub site_url: String,
    pub site_name: String,
}

impl CrowdSample {
    /// The stored-data invariant: the percentage lies on the scale.
    pub open spec fn is_valid(self) -> bool {
        self.percentage.is_valid()
    }

    /// An owned copy equal to this sample.
    pub fn duplicate(&self) -> (r: CrowdSample)
        ensures
            r == *self,
    {
        CrowdSample {
            timestamp: self.timestamp,
            percentage: self.percentage,
            descriptor: self.descriptor,
            site_url: self.site_url.clone(),
            site_name: self.site_name.clone(),
        }
    }
}

/// A storage failure, as surfaced by a fallible backing transport.
#[derive(Clone, Copy, PartialEq, Eq, Structural, Debug)]
pub enum StoreError {
    Connection,
    Query,
}

/// Optional bounds for a history query; absent fields leave the query
/// unconstrained in that dimension, present fields combine with AND.
pub struct HistoryFilter {
    pub site_url: Option<String>,
    pub since: Option<u64>,
    pub until: Option<u64>,
}

/// Whether a sample belongs to the (optional) site.
pub open spec fn site_matches(s: CrowdSample, site: Option<Seq<char>>) -> bool {
    match site {
        Some(u) => s.site_url@ == u,
        None => true,
    }
}

/// Whether a sample passes a history filter: on the site when one is given,
/// strictly after `since` when given, strictly before `until` when given.
pub open spec fn filter_matches(
    s: CrowdSample,
    site: Option<Seq<char>>,
    since: Option<u64>,
    until: Option<u64>,
) -> bool {
    &&& site_matches(s, site)
    &&& match since {
        Some(t) => s.timestamp > t,
        None => true,
    }
    &&& match until {
        Some(t) => s.timestamp < t,
        None => true,
    }
}

impl HistoryFilter {
    pub open spec fn site_view(self) -> Option<Seq<char>> {
        match self.site_url {
            Some(u) => Some(u@),
            None => None,
        }
    }
}

/// The matching rows, in row order.
pub open spec fn filtered_history(
    rows: Seq<CrowdSample>,
    site: Option<Seq<char>>,
    since: Option<u64>,
    until: Option<u64>,
) -> Seq<CrowdSample>
    decreases rows.len(),
{
    if rows.len() == 0 {
        Seq::empty()
    } else {
        let rest = filtered_history(rows.drop_first(), site, since, until);
        if filter_matches(rows[0], site, since, until) {
            seq![rows[0]] + rest
        } else {
            rest
        }
    }
}

/// The last row passing the site filter, scanning from the end.
pub open spec fn latest_match(rows: Seq<CrowdSample>, site: Option<Seq<char>>) -> Option<
    CrowdSample,
>
    decreases rows.len(),
{
    if rows.len() == 0 {
        None
    } else if site_matches(rows.last(), site) {
        Some(rows.last())
    } else {
        latest_match(rows.drop_last(), site)
    }
}

/// Rows in non-decreasing timestamp order.
pub open spec fn sorted_by_time(rows: Seq<CrowdSample>) -> bool {
    forall|i: int, j: int|
        0 <= i <= j < rows.len() ==> #[trigger] rows[i].timestamp <= #[trigger] rows[j].timestamp
}

/// Every row's percentage lies on the scale.
pub open spec fn all_valid(rows: Seq<CrowdSample>) -> bool {
    forall|i: int| 0 <= i < rows.len() ==> (#[trigger] rows[i]).is_valid()
}

/// Where a new row of timestamp `ts` goes: after every row at or below
/// `ts`, before the first strictly above it.
pub open spec fn insert_pos(rows: Seq<CrowdSample>, ts: u64) -> int
    decreases rows.len(),
{
    if rows.len() == 0 {
        0
    } else if rows[0].timestamp > ts {
        0
    } else {
        1 + insert_pos(rows.drop_first(), ts)
    }
}

pub proof fn lemma_insert_pos_unique(rows: Seq<CrowdSample>, ts: u64, i: int)
    requires
        0 <= i <= rows.len(),
        forall|k: int| 0 <= k < i ==> #[trigger] rows[k].timestamp <= ts,
        i < rows.len() ==> rows[i].timestamp > ts,
    ensures
        insert_pos(rows, ts) == i,
    decreases rows.len(),
{
    if rows.len() == 0 {
    } else if rows[0].timestamp > ts {
        assert(i == 0);
    } else {
        assert(i >= 1);
        let rest = rows.drop_first();
        assert forall|k: int| 0 <= k < i - 1 implies #[trigger] rest[k].timestamp <= ts by {
            assert(rest[k] == rows[k + 1]);
        }
        if i - 1 < rest.len() {
            assert(rest[i - 1] == rows[i]);
        }
        lemma_insert_pos_unique(rest, ts, i - 1);
    }
}

/// The verified model of the raw sample table.
pub struct SampleStore {
    rows: Vec<CrowdSample>,
}

impl View for SampleStore {
    type V = Seq<CrowdSample>;

    closed spec fn view(&self) -> Seq<CrowdSample> {
        self.rows@
    }
}

impl SampleStore {
    /// The table invariant: rows ordered by time, percentages on the scale.
    pub open spec fn wf(self) -> bool {
        &&& sorted_by_time(self@)
        &&& all_valid(self@)
    }

    /// An empty store.
    pub fn new() -> (s: SampleStore)
        ensures
            s@ == Seq::<CrowdSample>::empty(),
            s.wf(),
    {
        SampleStore { rows: Vec::new() }
    }

    pub fn len(&self) -> (n: usize)
        ensures
            n == self@.len(),
    {
        self.rows.len()
    }

    pub fn get(&self, i: usize) -> (s: &CrowdSample)
        requires
            i < self@.len(),
        ensures
            *s == self@[i as int],
    {
        &self.rows[i]
    }

    /// Inserts one row at its timestamp's place; identical rows accumulate,
    /// nothing is deduplicated or overwritten.
    pub fn append(&mut self, sample: CrowdSample) -> (r: Result<(), StoreError>)
        requires
            old(self).wf(),
            sample.is_valid(),
        ensures
            final(self)@ == old(self)@.insert(insert_pos(old(self)@, sample.timestamp), sample),
            final(self).wf(),
            r is Ok,
    {
        let ghost rows0 = self.rows@;
        let mut i: usize = self.rows.len();
        while i > 0 && self.rows[i - 1].timestamp > sample.timestamp
            invariant
                i <= self.rows@.len(),
                self.rows@ == rows0,
                forall|k: int|
                    i <= k < rows0.len() ==> #[trigger] rows0[k].timestamp > sample.timestamp,
            decreases i,
        {
            i = i - 1;
        }
        proof {
            assert forall|k: int| 0 <= k < i implies #[trigger] rows0[k].timestamp
                <= sample.timestamp by {
                assert(rows0[k].timestamp <= rows0[i - 1].timestamp);
            }
            lemma_insert_pos_unique(rows0, sample.timestamp, i as int);
        }
        self.rows.insert(i, sample);
        proof {
            rows0.insert_ensures(i as int, sample);
            let rows1 = self.rows@;
            assert forall|a: int, b: int|
                0 <= a <= b < rows1.len() implies #[trigger] rows1[a].timestamp
                <= #[trigger] rows1[b].timestamp by {
                if a < i {
                    assert(rows1[a] == rows0[a]);
                }
                if b < i {
                    assert(rows1[b] == rows0[b]);
                }
                if a > i {
                    assert(rows1[a] == rows0[a - 1]);
                }
                if b > i {
                    assert(rows1[b] == rows0[b - 1]);
                }
            }
            assert forall|a: int| 0 <= a < rows1.len() implies (#[trigger] rows1[a]).is_valid() by {
                if a < i {
                    assert(rows1[a] == rows0[a]);
                } else if a > i {
                    assert(rows1[a] == rows0[a - 1]);
                }
            }
        }
        Ok(())
    }

    /// All rows passing the filter, most recent first. Every absent filter
    /// field is unconstrained; present fields combine with AND, time bounds
    /// strict on both sides.
    pub fn query_history(&self, filter: &HistoryFilter) -> (r: Result<Vec<CrowdSample>, StoreError>)
        requires
            self.wf(),
        ensures
            r is Ok,
            r->Ok_0@ == filtered_history(
                self@,
                filter.site_view(),
                filter.since,
                filter.until,
            ).reverse(),
    {
        let ghost site = filter.site_view();
        let ghost full = filtered_history(self@, site, filter.since, filter.until);
        let mut out: Vec<CrowdSample> = Vec::new();
        let mut i: usize = self.rows.len();
        proof {
            assert(self@.skip(self@.len() as int) =~= Seq::<CrowdSample>::empty());
        }
        while i > 0
            invariant
                i <= self@.len(),
                self.wf(),
                full == filtered_history(self@, site, filter.since, filter.until),
                site == filter.site_view(),
                out@ == filtered_history(
                    self@.skip(i as int),
                    site,
                    filter.since,
                    filter.until,
                ).reverse(),
            decreases i,
        {
            proof {
                assert(self@.skip(i - 1).drop_first() =~= self@.skip(i as int));
                assert(self@.skip(i - 1)[0] == self@[i - 1]);
            }
            let row = &self.rows[i - 1];
            let site_ok = match &filter.site_url {
                Some(u) => *u == row.site_url,
                None => true,
            };
            let since_ok = match &filter.since {
                Some(t) => row.timestamp > *t,
                None => true,
            };
            let until_ok = match &filter.until {
                Some(t) => row.timestamp < *t,
                None => true,
            };
            proof {
                let prev = filtered_history(self@.skip(i as int), site, filter.since, filter.until);
                let grown = filtered_history(self@.skip(i - 1), site, filter.since, filter.until);
                if filter_matches(self@[i - 1], site, filter.since, filter.until) {
                    assert(grown == seq![self@[i - 1]] + prev);
                    assert(grown.reverse() =~= prev.reverse().push(self@[i - 1]));
                } else {
                    assert(grown == prev);
                }
            }
            if site_ok && since_ok && until_ok {
                out.push(row.duplicate());
            }
            i = i - 1;
        }
        proof {
            assert(self@.skip(0) =~= self@);
        }
        Ok(out)
    }

    /// The most recent row, optionally scoped to one site; absence of a
    /// matching row is `None`, not an error.
    pub fn query_latest(&self, site_url: Option<&String>) -> (r: Result<
        Option<CrowdSample>,
        StoreError,
    >)
        requires
            self.wf(),
        ensures
            r is Ok,
            r->Ok_0 == latest_match(self@, opt_site_view(site_url)),
    {
        let ghost site = opt_site_view(site_url);
        proof {
            assert(self@.take(self@.len() as int) =~= self@);
        }
        let mut i: usize = self.rows.len();
        while i > 0
            invariant
                i <= self@.len(),
                site == opt_site_view(site_url),
                latest_match(self@.take(i as int), site) == latest_match(self@, site),
            decreases i,
        {
            proof {
                assert(self@.take(i as int).drop_last() =~= self@.take(i - 1));
                assert(self@.take(i as int).last() == self@[i - 1]);
            }
            let row = &self.rows[i - 1];
            let site_ok = match site_url {
                Some(u) => *u == row.site_url,
                None => true,
            };
            if site_ok {
                return Ok(Some(row.duplicate()));
            }
            i = i - 1;
        }
        proof {
            assert(self@.take(0) =~= Seq::<CrowdSample>::empty());
        }
        Ok(None)
    }
}

/// The site filter carried by a borrowed optional string.
pub open spec fn opt_site_view(site: Option<&String>) -> Option<Seq<char>> {
    match site {
        Some(u) => Some(u@),
        None => None,
    }
}

/// The filtered rows are exactly the matching rows: every returned row
/// passes the filter, and every stored row passing the filter is returned.
pub proof fn lemma_history_members(
    rows: Seq<CrowdSample>,
    site: Option<Seq<char>>,
    since: Option<u64>,
    until: Option<u64>,
)
    ensures
        forall|k: int|
            0 <= k < filtered_history(rows, site, since, until).len() ==> filter_matches(
                #[trigger] filtered_history(rows, site, since, until)[k],
                site,
                since,
                until,
            ),
        forall|i: int|
            0 <= i < rows.len() && filter_matches(#[trigger] rows[i], site, since, until)
                ==> filtered_history(rows, site, since, until).contains(rows[i]),
    decreases rows.len(),
{
    if rows.len() > 0 {
        let rest = rows.drop_first();
        lemma_history_members(rest, site, since, until);
        let whole = filtered_history(rows, site, since, until);
        let frest = filtered_history(rest, site, since, until);
        assert forall|i: int|
            0 <= i < rows.len() && filter_matches(#[trigger] rows[i], site, since, until)
            implies whole.contains(rows[i]) by {
            if i == 0 {
                assert(whole[0] == rows[0]);
            } else {
                assert(rest[i - 1] == rows[i]);
                assert(frest.contains(rows[i]));
                let w = choose|w: int| 0 <= w < frest.len() && frest[w] == rows[i];
                if filter_matches(rows[0], site, since, until) {
                    assert(whole[w + 1] == frest[w]);
                } else {
                    assert(whole[w] == frest[w]);
                }
            }
        }
    }
}

/// Every filtered row's timestamp respects a lower bound on the rows.
proof fn lemma_filtered_time_bound(
    rows: Seq<CrowdSample>,
    site: Option<Seq<char>>,
    since: Option<u64>,
    until: Option<u64>,
    t0: u64,
)
    requires
        forall|i: int| 0 <= i < rows.len() ==> #[trigger] rows[i].timestamp >= t0,
    ensures
        forall|k: int|
            0 <= k < filtered_history(rows, site, since, until).len() ==> #[trigger] filtered_history(
                rows,
                site,
                since,
                until,
            )[k].timestamp >= t0,
    decreases rows.len(),
{
    if rows.len() > 0 {
        let rest = rows.drop_first();
        assert forall|i: int| 0 <= i < rest.len() implies #[trigger] rest[i].timestamp >= t0 by {
            assert(rest[i] == rows[i + 1]);
        }
        lemma_filtered_time_bound(rest, site, since, until, t0);
        let whole = filtered_history(rows, site, since, until);
        let frest = filtered_history(rest, site, since, until);
        if filter_matches(rows[0], site, since, until) {
            assert forall|k: int| 0 <= k < whole.len() implies #[trigger] whole[k].timestamp
                >= t0 by {
                if k > 0 {
                    assert(whole[k] == frest[k - 1]);
                }
            }
        }
    }
}

/// Filtering keeps the rows' time order.
proof fn lemma_filtered_sorted(
    rows: Seq<CrowdSample>,
    site: Option<Seq<char>>,
    since: Option<u64>,
    until: Option<u64>,
)
    requires
        sorted_by_time(rows),
    ensures
        sorted_by_time(filtered_history(rows, site, since, until)),
    decreases rows.len(),
{
    if rows.len() > 0 {
        let rest = rows.drop_first();
        assert forall|a: int, b: int|
            0 <= a <= b < rest.len() implies #[trigger] rest[a].timestamp
            <= #[trigger] rest[b].timestamp by {
            assert(rest[a] == rows[a + 1]);
            assert(rest[b] == rows[b + 1]);
        }
        lemma_filtered_sorted(rest, site, since, until);
        let whole = filtered_history(rows, site, since, until);
        let frest = filtered_history(rest, site, since, until);
        if filter_matches(rows[0], site, since, until) {
            assert forall|i: int| 0 <= i < rest.len() implies #[trigger] rest[i].timestamp
                >= rows[0].timestamp by {
                assert(rest[i] == rows[i + 1]);
            }
            lemma_filtered_time_bound(rest, site, since, until, rows[0].timestamp);
            assert forall|a: int, b: int|
                0 <= a <= b < whole.len() implies #[trigger] whole[a].timestamp
                <= #[trigger] whole[b].timestamp by {
                if a > 0 {
                    assert(whole[a] == frest[a - 1]);
                    assert(whole[b] == frest[b - 1]);
                } else if b > 0 {
                    assert(whole[b] == frest[b - 1]);
                    assert(frest[b - 1].timestamp >= rows[0].timestamp);
                }
            }
        }
    }
}

/// A well-formed store's history comes out most recent first: in the
/// reversed filter result, timestamps never increase.
pub proof fn lemma_history_is_descending(
    rows: Seq<CrowdSample>,
    site: Option<Seq<char>>,
    since: Option<u64>,
    until: Option<u64>,
)
    requires
        sorted_by_time(rows),
    ensures
        forall|a: int, b: int|
            0 <= a <= b < filtered_history(rows, site, since, until).reverse().len()
                ==> #[trigger] filtered_history(rows, site, since, until).reverse()[a].timestamp
                >= #[trigger] filtered_history(rows, site, since, until).reverse()[b].timestamp,
{
    lemma_filtered_sorted(rows, site, since, until);
    let f = filtered_history(rows, site, since, until);
    assert forall|a: int, b: int| 0 <= a <= b < f.reverse().len() implies #[trigger] f.reverse()[a].timestamp
        >= #[trigger] f.reverse()[b].timestamp by {
        assert(f.reverse()[a] == f[f.len() - 1 - a]);
        assert(f.reverse()[b] == f[f.len() - 1 - b]);
        assert(f[f.len() - 1 - b].timestamp <= f[f.len() - 1 - a].timestamp);
    }
}

/// Appending a sample and immediately querying the latest row for its site
/// returns exactly that sample, whenever it is at least as recent as every
/// stored row of that site.
pub proof fn lemma_append_then_latest(
    rows: Seq<CrowdSample>,
    sample: CrowdSample,
    site: Option<Seq<char>>,
)
    requires
        sorted_by_time(rows),
        site_matches(sample, site),
        forall|k: int|
            0 <= k < rows.len() && site_matches(#[trigger] rows[k], site) ==> rows[k].timestamp
                <= sample.timestamp,
    ensures
        latest_match(rows.insert(insert_pos(rows, sample.timestamp), sample), site) == Some(sample),
{
    let p = insert_pos(rows, sample.timestamp);
    lemma_insert_pos_bounds(rows, sample.timestamp);
    lemma_insert_pos_splits(rows, sample.timestamp);
    let grown = rows.insert(p, sample);
    rows.insert_ensures(p, sample);
    assert(grown[p] == sample);
    assert forall|k: int| p < k < grown.len() implies !site_matches(#[trigger] grown[k], site) by {
        assert(grown[k] == rows[k - 1]);
        assert(rows[k - 1].timestamp > sample.timestamp);
    }
    lemma_latest_from_position(grown, site, p);
}

pub proof fn lemma_insert_pos_bounds(rows: Seq<CrowdSample>, ts: u64)
    ensures
        0 <= insert_pos(rows, ts) <= rows.len(),
    decreases rows.len(),
{
    if rows.len() > 0 && !(rows[0].timestamp > ts) {
        lemma_insert_pos_bounds(rows.drop_first(), ts);
    }
}

/// Rows before the insertion point are at or below `ts`; rows from it on
/// are strictly above.
pub proof fn lemma_insert_pos_splits(rows: Seq<CrowdSample>, ts: u64)
    requires
        sorted_by_time(rows),
    ensures
        forall|k: int| 0 <= k < insert_pos(rows, ts) ==> #[trigger] rows[k].timestamp <= ts,
        forall|k: int|
            insert_pos(rows, ts) <= k < rows.len() ==> #[trigger] rows[k].timestamp > ts,
    decreases rows.len(),
{
    lemma_insert_pos_bounds(rows, ts);
    if rows.len() == 0 {
    } else if rows[0].timestamp > ts {
        assert forall|k: int| 0 <= k < rows.len() implies #[trigger] rows[k].timestamp > ts by {
            assert(rows[0].timestamp <= rows[k].timestamp);
        }
    } else {
        let rest = rows.drop_first();
        assert(rest.len() == rows.len() - 1);
        assert forall|a: int, b: int|
            0 <= a <= b < rest.len() implies #[trigger] rest[a].timestamp
            <= #[trigger] rest[b].timestamp by {
            assert(rest[a] == rows[a + 1]);
            assert(rest[b] == rows[b + 1]);
        }
        lemma_insert_pos_splits(rest, ts);
        lemma_insert_pos_bounds(rest, ts);
        assert(insert_pos(rows, ts) == 1 + insert_pos(rest, ts));
        let p = insert_pos(rows, ts);
        assert forall|k: int| 0 <= k < p implies #[trigger] rows[k].timestamp <= ts by {
            if k > 0 {
                assert(rows[k] == rest[k - 1]);
                assert(rest[k - 1].timestamp <= ts);
            }
        }
        assert forall|k: int| p <= k < rows.len() implies #[trigger] rows[k].timestamp > ts by {
            assert(rows[k] == rest[k - 1]);
            assert(rest[k - 1].timestamp > ts);
        }
    }
}

/// When every row after position `p` fails the site filter and row `p`
/// passes it, the latest match is row `p`.
pub proof fn lemma_latest_from_position(rows: Seq<CrowdSample>, site: Option<Seq<char>>, p: int)
    requires
        0 <= p < rows.len(),
        site_matches(rows[p], site),
        forall|k: int| p < k < rows.len() ==> !site_matches(#[trigger] rows[k], site),
    ensures
        latest_match(rows, site) == Some(rows[p]),
    decreases rows.len(),
{
    if p == rows.len() - 1 {
        assert(rows.last() == rows[p]);
    } else {
        assert(!site_matches(rows.last(), site));
        let shrunk = rows.drop_last();
        assert(shrunk[p] == rows[p]);
        assert forall|k: int| p < k < shrunk.len() implies !site_matches(
            #[trigger] shrunk[k],
            site,
        ) by {
            assert(shrunk[k] == rows[k]);
        }
        lemma_latest_from_position(shrunk, site, p);
    }
}

} // verus!
