//! Per-zone orchestration: the effective TTL of a hostname, the change
//! batch's comment, and the outcome of a run across zones.

use vstd::prelude::*;
use vstd::string::StringExecFns;
use crate::addr::views_of;
use crate::config::{hostname_of, hostname_views, HostnameConfig, Route53ZoneConfig};
use crate::strutil::{join_spaces, spec_join_spaces};
use crate::ttl::{Ttl, DEFAULT_TTL_SECONDS};

verus! {

/// The effective TTL of a hostname, by precedence: the hostname's override,
/// then the zone's default, then the run-wide default, then the hard-coded
/// fallback.
pub open spec fn spec_resolve_ttl(
    hostname_ttl: Option<Ttl>,
    zone_ttl: Option<Ttl>,
    global_ttl: Option<Ttl>,
) -> int {
    match hostname_ttl {
        Some(t) => t.spec_seconds(),
        None => match zone_ttl {
            Some(t) => t.spec_seconds(),
            None => match global_ttl {
                Some(t) => t.spec_seconds(),
                None => DEFAULT_TTL_SECONDS as int,
            },
        },
    }
}

/// Resolves one hostname's effective TTL. Resolved once per hostname per
/// run, before its records are diffed.
pub fn resolve_ttl(hc: &HostnameConfig, zone_ttl: Option<Ttl>, global_ttl: Option<Ttl>) -> (t: Ttl)
    ensures
        t.spec_seconds() == spec_resolve_ttl(
            crate::config::ttl_of(hc@),
            zone_ttl,
            global_ttl,
        ),
{
    match hc.get_ttl() {
        Some(t) => t,
        None => match zone_ttl {
            Some(t) => t,
            None => match global_ttl {
                Some(t) => t,
                None => Ttl::from_seconds(DEFAULT_TTL_SECONDS),
            },
        },
    }
}

/// The comment of a zone's change batch.
pub open spec fn spec_batch_comment(hostnames: Seq<HostnameConfig>) -> Seq<char> {
    "Route 53 update for "@ + spec_join_spaces(
        hostname_views(hostnames).map_values(|h| hostname_of(h)),
    )
}

/// Writes the batch comment: the managed hostnames of the zone, joined with
/// spaces, behind a fixed prefix.
pub fn change_batch_comment(hostnames: &Vec<HostnameConfig>) -> (r: String)
    ensures
        r@ == spec_batch_comment(hostnames@),
{
    let mut names: Vec<String> = Vec::new();
    let mut i: usize = 0;
    proof {
        assert(views_of(names@) =~= hostname_views(hostnames@).map_values(
            |h| hostname_of(h),
        ).take(0));
    }
    while i < hostnames.len()
        invariant
            i <= hostnames@.len(),
            names@.len() == i,
            views_of(names@) == hostname_views(hostnames@).map_values(|h| hostname_of(h)).take(
                i as int,
            ),
        decreases hostnames@.len() - i,
    {
        names.push(hostnames[i].get_hostname().to_owned());
        proof {
            assert(views_of(names@) =~~= hostname_views(hostnames@).map_values(
                |h| hostname_of(h),
            ).take(i + 1));
        }
        i += 1;
    }
    proof {
        assert(hostname_views(hostnames@).map_values(|h| hostname_of(h)).take(
            hostnames@.len() as int,
        ) =~= hostname_views(hostnames@).map_values(|h| hostname_of(h)));
    }
    let joined = join_spaces(&names);
    String::from_str("Route 53 update for ").concat(joined.as_str())
}

/// What driving one zone ended in.
#[derive(Debug)]
pub enum ZoneOutcome {
    /// Every hostname already carried the desired state: nothing submitted.
    NoChangesNeeded,
    /// A batch was submitted and propagated to `Insync`.
    Succeeded,
    /// The zone's update failed, with the reason; siblings run on
    /// regardless.
    Failed(String),
}

/// A run succeeds exactly when no zone failed.
pub fn overall_success(outcomes: &Vec<ZoneOutcome>) -> (r: bool)
    ensures
        r == (forall|i: int| 0 <= i < outcomes@.len() ==> !((#[trigger] outcomes@[i]) is Failed)),
{
    let mut i: usize = 0;
    while i < outcomes.len()
        invariant
            i <= outcomes@.len(),
            forall|j: int| 0 <= j < i ==> !((#[trigger] outcomes@[j]) is Failed),
        decreases outcomes@.len() - i,
    {
        if let ZoneOutcome::Failed(_) = &outcomes[i] {
            return false;
        }
        i += 1;
    }
    true
}

/// The zone-level default TTL handed to every hostname of a zone: the zone's
/// own, or the run-wide one.
pub fn effective_zone_ttl(zone: &Route53ZoneConfig, global_ttl: Option<Ttl>) -> (r: Option<Ttl>)
    ensures
        r == (match zone.ttl {
            Some(t) => Some(t),
            None => global_ttl,
        }),
{
    match zone.ttl {
        Some(t) => Some(t),
        None => global_ttl,
    }
}

} // verus!
