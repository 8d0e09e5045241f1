//! The fixed list of configured websites.
//!
//! The list is an explicit configuration value handed to the scheduler and
//! fetch pipeline at the call site, never process-wide mutable state, so
//! tests can inject their own sites.

use vstd::prelude::*;

verus! {

/// One configured website: where to fetch and how to label its samples.
#[derive(Debug, PartialEq)]
pub struct WebsiteConfig {
    pub url: String,
    pub name: String,
}

impl WebsiteConfig {
    /// An owned copy equal to this configuration entry.
    pub fn duplicate(&self) -> (r: WebsiteConfig)
        ensures
            r == *self,
    {
        WebsiteConfig { url: self.url.clone(), name: self.name.clone() }
    }
}

/// Returns the list of configured websites to scrape.
pub fn get_configured_websites() -> (r: Vec<WebsiteConfig>)
    ensures
        r@.len() == 3,
        r@[0].url@ == "https://www.boulderwelt-muenchen-ost.de/"@,
        r@[0].name@ == "Boulderwelt München Ost"@,
        r@[1].url@ == "https://www.boulderwelt-muenchen-west.de/"@,
        r@[1].name@ == "Boulderwelt München West"@,
        r@[2].url@ == "https://www.boulderwelt-muenchen-sued.de/"@,
        r@[2].name@ == "Boulderwelt München Süd"@,
{
    let mut v: Vec<WebsiteConfig> = Vec::new();
    v.push(
        WebsiteConfig {
            url: "https://www.boulderwelt-muenchen-ost.de/".to_owned(),
            name: "Boulderwelt München Ost".to_owned(),
        },
    );
    v.push(
        WebsiteConfig {
            url: "https://www.boulderwelt-muenchen-west.de/".to_owned(),
            name: "Boulderwelt München West".to_owned(),
        },
    );
    v.push(
        WebsiteConfig {
            url: "https://www.boulderwelt-muenchen-sued.de/".to_owned(),
            name: "Boulderwelt München Süd".to_owned(),
        },
    );
    v
}

} // verus!
