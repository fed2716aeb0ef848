//! The list of sites to monitor.

use vstd::prelude::*;

verus! {

/// Port used when a site names none.
pub fn default_target_port() -> (r: u32)
    ensures
        r == 443,
{
    443
}

/// Log target used when the configuration names none.
pub fn default_log_target() -> (r: String)
    ensures
        r@ == "cert-monitor"@,
{
    "cert-monitor".to_owned()
}

/// Threshold of remaining days used when a site names none.
pub fn default_min_valid_days() -> (r: i64)
    ensures
        r == 15,
{
    15
}

/// One monitored endpoint.
#[derive(Debug, Clone)]
pub struct Site {
    pub target_fqn: String,
    pub service: String,
    pub port: u32,
    pub min_valid_days: i64,
}

impl Site {
    /// Whether a certificate with `remaining_days` left is due for renewal:
    /// fewer days remain than the site's threshold.
    pub fn is_due(&self, remaining_days: i64) -> (r: bool)
        ensures
            r == (remaining_days < self.min_valid_days),
    {
        remaining_days < self.min_valid_days
    }
}

/// The sites to monitor, and where the monitor logs to.
pub struct SiteConfig {
    sites: Vec<Site>,
    pub log_target: String,
}

impl SiteConfig {
    /// The configured sites, in their order.
    pub closed spec fn sites(&self) -> Seq<Site> {
        self.sites@
    }

    /// Where the monitor logs to.
    pub closed spec fn log_target_text(&self) -> Seq<char> {
        self.log_target@
    }

    /// A configuration from its parts.
    pub fn from_parts(sites: Vec<Site>, log_target: String) -> (r: SiteConfig)
        ensures
            r.sites() == sites@,
            r.log_target_text() == log_target@,
    {
        SiteConfig { sites, log_target }
    }

    /// The configured sites, to be walked in order.
    pub fn site_iter(&self) -> (r: &[Site])
        ensures
            r@ == self.sites(),
    {
        self.sites.as_slice()
    }

    /// A configuration of one site queried on the command line: service
    /// `query`, and an empty log target.
    pub fn simple(target_fqn: &String, target_port: u32, min_valid_days: i64) -> (r: SiteConfig)
        ensures
            r.sites().len() == 1,
            r.sites()[0].target_fqn@ == target_fqn@,
            r.sites()[0].service@ == "query"@,
            r.sites()[0].port == target_port,
            r.sites()[0].min_valid_days == min_valid_days,
            r.log_target_text() == ""@,
    {
        let site = Site {
            target_fqn: target_fqn.clone(),
            service: "query".to_owned(),
            port: target_port,
            min_valid_days,
        };
        SiteConfig { sites: vec![site], log_target: "".to_owned() }
    }
}

} // verus!
