//! Job dispatch and the tolerant per-site ingestion step.
//!
//! A trigger equal to the configured daily cron signature selects the
//! aggregation job, whose failure would surface to the caller; any other
//! trigger selects the scrape job, which attempts every configured site and
//! stores every sample that arrived, counting successes and never letting
//! one site's failure block another's. Callers perform the outside fetches
//! and hand the per-site outcomes in.

use vstd::prelude::*;
use crate::aggregate::{recompute_spec, AggregationError, AverageTable};
use crate::config::WebsiteConfig;
use crate::fetcher::FetchError;
use crate::store::{insert_pos, CrowdSample, SampleStore};

verus! {

/// Which job a trigger selects.
#[derive(Clone, Copy, PartialEq, Eq, Structural, Debug)]
pub enum JobKind {
    /// The once-daily aggregation pass.
    Daily,
    /// The fixed-cadence scrape of every configured site.
    Scrape,
}

/// A scheduled-job failure; only the daily job can fail, and only through
/// aggregation.
#[derive(Clone, Copy, PartialEq, Eq, Structural, Debug)]
pub enum JobError {
    Aggregation(AggregationError),
}

/// The daily cron signature the scheduler is configured with.
pub fn daily_cron_signature() -> (r: &'static str)
    ensures
        r@ == "0 0 * * *"@,
{
    "0 0 * * *"
}

/// Dispatches on the trigger: exactly the daily signature selects the
/// daily job, every other trigger the scrape job.
pub fn plan_job(trigger: &String, daily_signature: &String) -> (k: JobKind)
    ensures
        k == JobKind::Daily <==> trigger@ == daily_signature@,
{
    if *trigger == *daily_signature {
        JobKind::Daily
    } else {
        JobKind::Scrape
    }
}

/// The store after the arrived samples, in site order, have been appended;
/// failed sites leave no row.
pub open spec fn ingest_spec(
    rows: Seq<CrowdSample>,
    outcomes: Seq<Result<CrowdSample, FetchError>>,
) -> Seq<CrowdSample>
    decreases outcomes.len(),
{
    if outcomes.len() == 0 {
        rows
    } else {
        let next = match outcomes[0] {
            Ok(s) => rows.insert(insert_pos(rows, s.timestamp), s),
            Err(_) => rows,
        };
        ingest_spec(next, outcomes.drop_first())
    }
}

/// How many outcomes arrived.
pub open spec fn ok_count(outcomes: Seq<Result<CrowdSample, FetchError>>) -> int
    decreases outcomes.len(),
{
    if outcomes.len() == 0 {
        0
    } else {
        (if outcomes[0] is Ok {
            1int
        } else {
            0int
        }) + ok_count(outcomes.drop_first())
    }
}

/// Stores every sample that arrived and counts them; per-site failures are
/// skipped, never propagated, so the step always completes.
pub fn run_scrape(store: &mut SampleStore, outcomes: &Vec<Result<CrowdSample, FetchError>>) -> (n:
    usize)
    requires
        old(store).wf(),
        forall|i: int|
            0 <= i < outcomes@.len() && outcomes@[i] is Ok ==> (#[trigger] outcomes@[i])->Ok_0.is_valid(),
    ensures
        final(store)@ == ingest_spec(old(store)@, outcomes@),
        final(store).wf(),
        n == ok_count(outcomes@),
{
    proof {
        assert(outcomes@.skip(0) =~= outcomes@);
    }
    let mut n: usize = 0;
    let mut i: usize = 0;
    while i < outcomes.len()
        invariant
            i <= outcomes@.len(),
            n <= i,
            store.wf(),
            forall|k: int|
                0 <= k < outcomes@.len() && outcomes@[k] is Ok ==> (#[trigger] outcomes@[k])->Ok_0.is_valid(),
            ingest_spec(store@, outcomes@.skip(i as int)) == ingest_spec(old(store)@, outcomes@),
            ok_count(outcomes@) == n + ok_count(outcomes@.skip(i as int)),
        decreases outcomes@.len() - i,
    {
        proof {
            assert(outcomes@.skip(i as int).drop_first() =~= outcomes@.skip(i + 1));
            assert(outcomes@.skip(i as int)[0] == outcomes@[i as int]);
        }
        match &outcomes[i] {
            Ok(s) => {
                let appended = store.append(s.duplicate());
                proof {
                    assert(appended is Ok);
                }
                n = n + 1;
            },
            Err(_) => {},
        }
        i = i + 1;
    }
    proof {
        assert(outcomes@.skip(outcomes@.len() as int) =~= Seq::<
            Result<CrowdSample, FetchError>,
        >::empty());
    }
    n
}

/// Runs the daily aggregation pass; an aggregation failure would surface
/// as the job's error instead of being swallowed.
pub fn run_daily(
    table: &mut AverageTable,
    store: &SampleStore,
    sites: &Vec<WebsiteConfig>,
    now: u64,
) -> (r: Result<(), JobError>)
    requires
        old(table).wf(),
        store.wf(),
    ensures
        final(table)@ == recompute_spec(old(table)@, sites@, store@, now),
        final(table).wf(),
        r is Ok,
{
    match table.recompute(store, sites, now) {
        Ok(()) => Ok(()),
        Err(e) => Err(JobError::Aggregation(e)),
    }
}

/// A sample that arrived is stored whatever happened to the other sites:
/// every successful outcome's sample is in the ingested store.
pub proof fn lemma_ingest_keeps_successes(
    rows: Seq<CrowdSample>,
    outcomes: Seq<Result<CrowdSample, FetchError>>,
)
    ensures
        forall|i: int|
            0 <= i < outcomes.len() && outcomes[i] is Ok ==> ingest_spec(rows, outcomes).contains(
                (#[trigger] outcomes[i])->Ok_0,
            ),
    decreases outcomes.len(),
{
    if outcomes.len() > 0 {
        let rest = outcomes.drop_first();
        let next = match outcomes[0] {
            Ok(s) => rows.insert(insert_pos(rows, s.timestamp), s),
            Err(_) => rows,
        };
        lemma_ingest_keeps_successes(next, rest);
        if outcomes[0] is Ok {
            let s = outcomes[0]->Ok_0;
            crate::store::lemma_insert_pos_bounds(rows, s.timestamp);
            let p = insert_pos(rows, s.timestamp);
            rows.insert_ensures(p, s);
            assert(next[p] == s);
            assert(next.contains(s));
            lemma_ingest_grows(next, rest, s);
        }
        assert forall|i: int|
            0 <= i < outcomes.len() && outcomes[i] is Ok implies ingest_spec(
            rows,
            outcomes,
        ).contains((#[trigger] outcomes[i])->Ok_0) by {
            if i > 0 {
                assert(rest[i - 1] == outcomes[i]);
            }
        }
    }
}

/// Ingestion never drops a stored sample.
pub proof fn lemma_ingest_grows(
    rows: Seq<CrowdSample>,
    outcomes: Seq<Result<CrowdSample, FetchError>>,
    x: CrowdSample,
)
    requires
        rows.contains(x),
    ensures
        ingest_spec(rows, outcomes).contains(x),
    decreases outcomes.len(),
{
    if outcomes.len() > 0 {
        let next = match outcomes[0] {
            Ok(s) => rows.insert(insert_pos(rows, s.timestamp), s),
            Err(_) => rows,
        };
        if outcomes[0] is Ok {
            let s = outcomes[0]->Ok_0;
            crate::store::lemma_insert_pos_bounds(rows, s.timestamp);
            let p = insert_pos(rows, s.timestamp);
            rows.insert_ensures(p, s);
            let w = choose|w: int| 0 <= w < rows.len() && rows[w] == x;
            if w < p {
                assert(next[w] == x);
            } else {
                assert(next[w + 1] == x);
            }
            assert(next.contains(x));
        }
        lemma_ingest_grows(next, outcomes.drop_first(), x);
    }
}

} // verus!
