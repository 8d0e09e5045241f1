//! Assembling a crowd sample from one site's fetched payload.
//!
//! The network call itself is a collaborator outside this crate: callers
//! retrieve the payload (the page in markup mode, the derived AJAX endpoint
//! in structured mode) and hand status, body and the wall-clock time to
//! `build_sample`, which checks the status, runs extraction and
//! classification, and assembles the sample. A failed fetch or extraction
//! produces no sample — never a partial row.

use vstd::prelude::*;
use vstd::string::StringExecFns;
use crate::config::WebsiteConfig;
use crate::classify::{classify, classify_spec};
use crate::extract::{extract, extraction_spec, ExtractionError, FetchMode};
use crate::percent::Percentage;
use crate::store::CrowdSample;

verus! {

/// A typed fetch failure.
#[derive(Clone, Copy, PartialEq, Eq, Structural, Debug)]
pub enum FetchError {
    /// The site answered with a non-success status.
    Http(u16),
    /// The transport failed before any status was available.
    Network,
    /// The payload arrived but carried no readable crowd signal.
    Extraction(ExtractionError),
}

/// Whether an HTTP status is a success.
pub open spec fn is_success_status(status: u16) -> bool {
    200 <= status < 300
}

/// Rejects non-success statuses.
pub fn check_status(status: u16) -> (r: Result<(), FetchError>)
    ensures
        r is Ok <==> is_success_status(status),
        !is_success_status(status) ==> r == Err::<(), FetchError>(FetchError::Http(status)),
{
    if 200 <= status && status < 300 {
        Ok(())
    } else {
        Err(FetchError::Http(status))
    }
}

/// The endpoint queried in structured mode, derived from the site's URL.
pub fn ajax_endpoint(url: &str) -> (r: String)
    ensures
        r@ == url@ + "wp-admin/admin-ajax.php?action=cxo_get_crowd_indicator"@,
{
    let mut s = url.to_owned();
    s.append("wp-admin/admin-ajax.php?action=cxo_get_crowd_indicator");
    s
}

/// The sample assembled from a successful extraction.
pub open spec fn fetched_sample(
    site: WebsiteConfig,
    mode: FetchMode,
    payload: Seq<char>,
    now: u64,
) -> CrowdSample {
    let h = extraction_spec(payload, mode)->Ok_0;
    CrowdSample {
        timestamp: now,
        percentage: Percentage { hundredths: h as u64 },
        descriptor: classify_spec(h),
        site_url: site.url,
        site_name: site.name,
    }
}

/// Builds one site's sample from a retrieved payload: a non-success status
/// fails with `Http(status)`, a payload without a readable signal fails
/// with the extraction error, and otherwise the sample carries the
/// extracted percentage, its descriptor, the site's labels and `now`.
pub fn build_sample(
    site: &WebsiteConfig,
    mode: FetchMode,
    status: u16,
    payload: &str,
    now: u64,
) -> (r: Result<CrowdSample, FetchError>)
    ensures
        !is_success_status(status) ==> r == Err::<CrowdSample, FetchError>(
            FetchError::Http(status),
        ),
        is_success_status(status) && extraction_spec(payload@, mode) is Err ==> r == Err::<
            CrowdSample,
            FetchError,
        >(FetchError::Extraction(extraction_spec(payload@, mode)->Err_0)),
        is_success_status(status) && extraction_spec(payload@, mode) is Ok ==> r is Ok && r->Ok_0
            == fetched_sample(*site, mode, payload@, now) && r->Ok_0.is_valid(),
{
    match check_status(status) {
        Err(e) => {
            return Err(e);
        },
        Ok(()) => {},
    }
    let p = match extract(payload, mode) {
        Ok(p) => p,
        Err(e) => {
            return Err(FetchError::Extraction(e));
        },
    };
    let d = classify(&p);
    Ok(
        CrowdSample {
            timestamp: now,
            percentage: p,
            descriptor: d,
            site_url: site.url.clone(),
            site_name: site.name.clone(),
        },
    )
}

/// The first configured site with the given URL.
pub open spec fn found_site(sites: Seq<WebsiteConfig>, url: Seq<char>) -> Option<WebsiteConfig>
    decreases sites.len(),
{
    if sites.len() == 0 {
        None
    } else if sites[0].url@ == url {
        Some(sites[0])
    } else {
        found_site(sites.drop_first(), url)
    }
}

/// Looks a URL up in the configured list; a URL outside the list is `None`,
/// which callers turn into their not-configured failure.
pub fn find_site<'a>(sites: &'a Vec<WebsiteConfig>, url: &String) -> (r: Option<
    &'a WebsiteConfig,
>)
    ensures
        r is Some <==> found_site(sites@, url@) is Some,
        r is Some ==> *r->Some_0 == found_site(sites@, url@)->Some_0,
{
    proof {
        assert(sites@.skip(0) =~= sites@);
    }
    let mut i: usize = 0;
    while i < sites.len()
        invariant
            i <= sites@.len(),
            found_site(sites@.skip(i as int), url@) == found_site(sites@, url@),
        decreases sites@.len() - i,
    {
        proof {
            assert(sites@.skip(i as int).drop_first() =~= sites@.skip(i + 1));
            assert(sites@.skip(i as int)[0] == sites@[i as int]);
        }
        if sites[i].url == *url {
            return Some(&sites[i]);
        }
        i = i + 1;
    }
    proof {
        assert(sites@.skip(sites@.len() as int) =~= Seq::<WebsiteConfig>::empty());
    }
    None
}

} // verus!
