//! Planning one polling cycle. The caller resolves the current address and
//! reads the cached one; this module decides what the cycle does: nothing
//! when resolution failed, nothing when the address is unchanged, and one
//! update request per configured host — followed by one cache write — when
//! it changed.
//!
//! The plan is computed before any update is issued and does not depend on
//! how the updates fare: a failing host never removes another host's
//! request, and the new address is persisted after the round was attempted
//! for every host, whether or not each attempt succeeded.

use vstd::prelude::*;
use vstd::string::StrSliceExecFns;
use vstd::string::StringExecFns;
use crate::text::{trim_spec, trim, str_eq};
use crate::request::{update_url_spec, build_update_url};

verus! {

/// What one polling cycle does.
pub enum CycleStep {
    /// Resolution failed: skip this cycle, touch nothing.
    Skip,
    /// The resolved address equals the cached one: no updates, no write.
    Unchanged,
    /// The address changed: update every host, then write the cache.
    Update,
}

/// Classifies one cycle: `Skip` without a resolved address, `Unchanged`
/// when the trimmed cache equals the resolved address, `Update` otherwise.
/// A missing cache is handed in as the empty string and so never equals a
/// resolved address.
pub fn classify_cycle(resolved: &Option<String>, cached: &str) -> (r: CycleStep)
    ensures
        resolved is None <==> r is Skip,
        resolved is Some ==> ((r is Unchanged) <==> trim_spec(cached@) == resolved->0@),
        resolved is Some ==> ((r is Update) <==> trim_spec(cached@) != resolved->0@),
{
    match resolved {
        None => CycleStep::Skip,
        Some(ip) => {
            let c = trim(cached);
            if str_eq(c, ip.as_str()) {
                CycleStep::Unchanged
            } else {
                CycleStep::Update
            }
        },
    }
}

/// The plan for one cycle: the update requests to issue, in host order, and
/// the address to persist once all of them were attempted.
pub struct CyclePlan {
    /// One update URL per configured host, in order; empty when no update
    /// round is due.
    pub request_urls: Vec<String>,
    /// The address to write to the cache after the round, if any.
    pub write_cache: Option<String>,
}

/// Plans one cycle. Without a resolved address, or with an unchanged one,
/// the plan is empty and the cache is left alone. With a changed address
/// the plan holds exactly one update URL per configured host, in host
/// order, and persists the new address — the requests and the write are
/// decided here, before any update is issued, so no host's failure can
/// affect another host's attempt or the write.
pub fn plan_cycle(
    resolved: &Option<String>,
    cached: &str,
    hosts: &Vec<String>,
    domain: &str,
    password: &str,
) -> (p: CyclePlan)
    ensures
        resolved is None ==> p.request_urls@.len() == 0 && p.write_cache is None,
        resolved is Some && trim_spec(cached@) == resolved->0@ ==> p.request_urls@.len() == 0
            && p.write_cache is None,
        resolved is Some && trim_spec(cached@) != resolved->0@ ==> {
            &&& p.request_urls@.len() == hosts@.len()
            &&& forall|i: int|
                0 <= i < hosts@.len() ==> p.request_urls.deep_view()[i] == update_url_spec(
                    hosts.deep_view()[i],
                    domain@,
                    password@,
                    resolved->0@,
                )
            &&& p.write_cache is Some && p.write_cache->0@ == resolved->0@
        },
{
    match classify_cycle(resolved, cached) {
        CycleStep::Skip => CyclePlan { request_urls: Vec::new(), write_cache: None },
        CycleStep::Unchanged => CyclePlan { request_urls: Vec::new(), write_cache: None },
        CycleStep::Update => {
            let ip = match resolved {
                Some(ip) => ip,
                None => {
                    // classify_cycle returns Skip exactly when nothing resolved.
                    proof {
                        assert(false);
                    }
                    return CyclePlan { request_urls: Vec::new(), write_cache: None };
                },
            };
            let n: usize = hosts.len();
            let mut request_urls: Vec<String> = Vec::new();
            let mut i: usize = 0;
            while i < n
                invariant
                    0 <= i <= n,
                    n == hosts@.len(),
                    request_urls@.len() == i,
                    forall|j: int|
                        0 <= j < i ==> request_urls.deep_view()[j] == update_url_spec(
                            hosts.deep_view()[j],
                            domain@,
                            password@,
                            ip@,
                        ),
                decreases n - i,
            {
                let ghost pre = request_urls.deep_view();
                let url = build_update_url(hosts[i].as_str(), domain, password, ip.as_str());
                proof {
                    assert(hosts.deep_view()[i as int] == hosts@[i as int]@);
                }
                request_urls.push(url);
                proof {
                    assert(request_urls.deep_view() =~= pre.push(url@));
                }
                i = i + 1;
            }
            CyclePlan { request_urls, write_cache: Some(ip.clone()) }
        },
    }
}

} // verus!
