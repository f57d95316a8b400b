//! The run configuration: which addresses are discovered and allowed, and
//! which zones and hostnames are kept up to date.

use vstd::prelude::*;
use vstd::string::{StrSliceExecFns, StringExecFns};
use crate::addr::{views_of, IpAddress};
use crate::error::{ErrorView, Route53IpUpdateError};
use crate::query_address_type::QueryAddressType;
use crate::strutil::str_eq;
use crate::ttl::Ttl;

verus! {

/// The address of the default "echo my IP" service.
pub const DEFAULT_IP_SERVICE: &'static str = "https://ipinfo.kanga.org/";

/// One hostname to manage: bare, or with a TTL override.
#[derive(Clone, Debug, PartialEq, Eq)]
pub enum HostnameConfig {
    HostnameOnly(String),
    HostnameAndTtl(HostnameAndTtlConfig),
}

/// A hostname together with its TTL override.
#[derive(Clone, Debug, PartialEq, Eq)]
pub struct HostnameAndTtlConfig {
    pub hostname: String,
    pub ttl: Ttl,
}

/// The mathematical shape of a hostname entry.
pub enum HostnameConfigView {
    HostnameOnly(Seq<char>),
    HostnameAndTtl(Seq<char>, Ttl),
}

impl View for HostnameConfig {
    type V = HostnameConfigView;

    open spec fn view(&self) -> HostnameConfigView {
        match self {
            HostnameConfig::HostnameOnly(h) => HostnameConfigView::HostnameOnly(h@),
            HostnameConfig::HostnameAndTtl(ht) => HostnameConfigView::HostnameAndTtl(
                ht.hostname@,
                ht.ttl,
            ),
        }
    }
}

/// The hostname of an entry.
pub open spec fn hostname_of(h: HostnameConfigView) -> Seq<char> {
    match h {
        HostnameConfigView::HostnameOnly(name) => name,
        HostnameConfigView::HostnameAndTtl(name, _) => name,
    }
}

/// The TTL override of an entry, if it has one.
pub open spec fn ttl_of(h: HostnameConfigView) -> Option<Ttl> {
    match h {
        HostnameConfigView::HostnameOnly(_) => None,
        HostnameConfigView::HostnameAndTtl(_, t) => Some(t),
    }
}

impl HostnameConfig {
    /// The hostname this entry manages.
    pub fn get_hostname(&self) -> (r: &str)
        ensures
            r@ == hostname_of(self@),
    {
        match self {
            HostnameConfig::HostnameOnly(hostname) => hostname.as_str(),
            HostnameConfig::HostnameAndTtl(hostname_and_ttl) => hostname_and_ttl.hostname.as_str(),
        }
    }

    /// The entry's TTL override, if any.
    pub fn get_ttl(&self) -> (r: Option<Ttl>)
        ensures
            r == ttl_of(self@),
    {
        match self {
            HostnameConfig::HostnameOnly(_) => None,
            HostnameConfig::HostnameAndTtl(hostname_and_ttl) => Some(hostname_and_ttl.ttl),
        }
    }
}

/// The views of a sequence of hostname entries.
pub open spec fn hostname_views(hs: Seq<HostnameConfig>) -> Seq<HostnameConfigView> {
    hs.map_values(|h: HostnameConfig| h@)
}

/// One managed zone: its identifier, its hostnames, and an optional
/// zone-level default TTL.
#[derive(Clone, Debug, PartialEq, Eq)]
pub struct Route53ZoneConfig {
    pub zone_id: String,
    pub hostnames: Vec<HostnameConfig>,
    pub ttl: Option<Ttl>,
}

/// The mathematical shape of a zone entry.
pub struct ZoneConfigView {
    pub zone_id: Seq<char>,
    pub hostnames: Seq<HostnameConfigView>,
    pub ttl: Option<Ttl>,
}

impl View for Route53ZoneConfig {
    type V = ZoneConfigView;

    open spec fn view(&self) -> ZoneConfigView {
        ZoneConfigView {
            zone_id: self.zone_id@,
            hostnames: hostname_views(self.hostnames@),
            ttl: self.ttl,
        }
    }
}

/// The views of a sequence of zone entries.
pub open spec fn zone_views(zs: Seq<Route53ZoneConfig>) -> Seq<ZoneConfigView> {
    zs.map_values(|z: Route53ZoneConfig| z@)
}

/// A zone after one hostname was offered to it: unchanged when a hostname of
/// that name is already there, extended by a bare entry otherwise.
pub open spec fn spec_zone_add_hostname(z: ZoneConfigView, h: Seq<char>) -> ZoneConfigView {
    if exists|j: int| 0 <= j < z.hostnames.len() && hostname_of(#[trigger] z.hostnames[j]) == h {
        z
    } else {
        ZoneConfigView {
            zone_id: z.zone_id,
            hostnames: z.hostnames.push(HostnameConfigView::HostnameOnly(h)),
            ttl: z.ttl,
        }
    }
}

/// A zone after a list of hostnames was offered to it in order.
pub open spec fn spec_zone_add_hostnames(z: ZoneConfigView, hs: Seq<Seq<char>>) -> ZoneConfigView
    decreases hs.len(),
{
    if hs.len() == 0 {
        z
    } else {
        spec_zone_add_hostname(spec_zone_add_hostnames(z, hs.drop_last()), hs.last())
    }
}

impl Route53ZoneConfig {
    /// Offers one hostname to the zone: appended as a bare entry unless an
    /// entry of that name is already present.
    pub fn add_hostname(&mut self, hostname: &str)
        ensures
            final(self)@ == spec_zone_add_hostname(old(self)@, hostname@),
    {
        let n = self.hostnames.len();
        let mut i: usize = 0;
        while i < n
            invariant
                n == self.hostnames@.len(),
                i <= n,
                self == old(self),
                forall|j: int|
                    0 <= j < i ==> hostname_of(#[trigger] hostname_views(self.hostnames@)[j])
                        != hostname@,
            decreases n - i,
        {
            if str_eq(self.hostnames[i].get_hostname(), hostname) {
                proof {
                    assert(hostname_of(hostname_views(self.hostnames@)[i as int]) == hostname@);
                }
                return ;
            }
            i += 1;
        }
        self.hostnames.push(HostnameConfig::HostnameOnly(hostname.to_owned()));
        proof {
            assert(hostname_views(self.hostnames@) =~= hostname_views(
                old(self).hostnames@,
            ).push(HostnameConfigView::HostnameOnly(hostname@)));
        }
    }
}

/// The index of the first zone with an identifier, or the number of zones if
/// none carries it.
pub open spec fn zone_index(zones: Seq<ZoneConfigView>, id: Seq<char>) -> int
    decreases zones.len(),
{
    if zones.len() == 0 {
        0
    } else {
        let f = zone_index(zones.drop_last(), id);
        if f < zones.len() - 1 {
            f
        } else if zones.last().zone_id == id {
            zones.len() - 1
        } else {
            zones.len() as int
        }
    }
}

/// The zone list after one identifier was asked for, and where that zone now
/// stands: unchanged when present, extended by a fresh zone carrying the
/// run-wide default TTL otherwise.
pub open spec fn spec_get_or_create(
    zones: Seq<ZoneConfigView>,
    id: Seq<char>,
    default_ttl: Option<Ttl>,
) -> (Seq<ZoneConfigView>, int) {
    let f = zone_index(zones, id);
    if f < zones.len() {
        (zones, f)
    } else {
        (
            zones.push(
                ZoneConfigView {
                    zone_id: id,
                    hostnames: Seq::<HostnameConfigView>::empty(),
                    ttl: default_ttl,
                },
            ),
            zones.len() as int,
        )
    }
}

/// Overrides from the command line: every field optional, hostnames and
/// ignored interfaces additive.
#[derive(Debug)]
pub struct ArgOverrides {
    pub address_type: Option<QueryAddressType>,
    pub allow_nonroutable: Option<bool>,
    pub query_interfaces: Option<bool>,
    pub query_ip_service: Option<bool>,
    pub ignore_interfaces: Vec<String>,
    pub ip_service: Option<String>,
    pub timeout_ms: Option<u64>,
    pub ttl: Option<Ttl>,
    pub route53_zone: Option<String>,
    pub hostnames: Vec<String>,
}

/// The run configuration the engine consumes.
#[derive(Clone, Debug)]
pub struct Config {
    /// Whether to use IPv4, IPv6, or both.
    pub address_type: QueryAddressType,
    /// Whether non-routable addresses may be used.
    pub allow_nonroutable: bool,
    /// Whether local interfaces are queried for addresses.
    pub query_interfaces: bool,
    /// Whether the IP service is queried.
    pub query_ip_service: bool,
    /// Interfaces left out of the query.
    pub ignore_interfaces: Option<Vec<String>>,
    /// The service queried for the current address.
    pub ip_service: String,
    /// How long the IP service may take, in milliseconds.
    pub timeout_ms: u64,
    /// The zones kept up to date.
    pub route53_zones: Vec<Route53ZoneConfig>,
    /// The run-wide default TTL.
    pub ttl: Option<Ttl>,
}

/// The message reported for a zone without hostnames.
pub open spec fn zone_fault_message(id: Seq<char>) -> Seq<char> {
    "No hostnames have been configured for zone "@ + id + "."@
}

/// The per-zone fault messages, in zone order.
pub open spec fn spec_zone_messages(zones: Seq<Route53ZoneConfig>) -> Seq<Seq<char>>
    decreases zones.len(),
{
    if zones.len() == 0 {
        Seq::<Seq<char>>::empty()
    } else {
        spec_zone_messages(zones.drop_last()) + if zones.last().hostnames@.len() == 0 {
            seq![zone_fault_message(zones.last().zone_id@)]
        } else {
            Seq::<Seq<char>>::empty()
        }
    }
}

impl Config {
    /// Non-routable addresses are kept out unless asked for.
    pub fn default_allow_nonroutable() -> (r: bool)
        ensures
            r == false,
    {
        false
    }

    /// The IP service is queried unless switched off.
    pub fn default_query_ip_service() -> (r: bool)
        ensures
            r == true,
    {
        true
    }

    /// Interfaces are not queried unless switched on.
    pub fn default_query_interfaces() -> (r: bool)
        ensures
            r == false,
    {
        false
    }

    /// The default IP service address.
    pub fn default_ip_service() -> (r: String)
        ensures
            r@ == DEFAULT_IP_SERVICE@,
    {
        String::from_str(DEFAULT_IP_SERVICE)
    }

    /// Ten seconds for the IP service to answer.
    pub fn default_timeout() -> (r: u64)
        ensures
            r == 10000,
    {
        10000
    }

    /// Whether an interface's addresses are taken up.
    pub open spec fn spec_allows_interface(self, interface: Seq<char>) -> bool {
        match self.ignore_interfaces {
            Some(list) => !views_of(list@).contains(interface),
            None => true,
        }
    }

    /// Decides `spec_allows_interface`.
    pub fn allows_interface(&self, interface: &str) -> (r: bool)
        ensures
            r == self.spec_allows_interface(interface@),
    {
        if self.ignore_interfaces.is_none() {
            return true;
        }
        let list = self.ignore_interfaces.as_ref().unwrap();
        let n = list.len();
        let mut i: usize = 0;
        while i < n
            invariant
                self.ignore_interfaces == Some(*list),
                n == list@.len(),
                i <= n,
                forall|j: int| 0 <= j < i ==> #[trigger] views_of(list@)[j] != interface@,
            decreases n - i,
        {
            if str_eq(list[i].as_str(), interface) {
                proof {
                    assert(views_of(list@)[i as int] == interface@);
                    assert(views_of(list@).contains(interface@));
                }
                return false;
            }
            i += 1;
        }
        proof {
            assert(!views_of(list@).contains(interface@));
        }
        true
    }

    /// Whether a discovered address is taken up: non-routable addresses only
    /// when allowed, and only families the filter admits.
    pub open spec fn spec_allows_address(self, addr: IpAddress) -> bool {
        if !addr.spec_globally_routable() && !self.allow_nonroutable {
            false
        } else {
            self.address_type.spec_allows_address(addr)
        }
    }

    /// Decides `spec_allows_address`.
    pub fn allows_address(&self, addr: &IpAddress) -> (r: bool)
        ensures
            r == self.spec_allows_address(*addr),
    {
        if !addr.is_globally_routable() && !self.allow_nonroutable {
            false
        } else {
            self.address_type.allows_address(addr)
        }
    }

    /// Checks that the configuration can be acted on: a non-empty IP service
    /// where one is to be queried, at least one zone, and hostnames in every
    /// zone. Fails with exactly the messages of `spec_fault_messages`.
    pub fn check(&self) -> (r: Result<(), Route53IpUpdateError>)
        ensures
            r is Ok <==> self.spec_fault_messages().len() == 0,
            r is Err ==> r->Err_0@ == ErrorView::InvalidConfig(self.spec_fault_messages()),
    {
        let mut messages: Vec<String> = Vec::new();
        if self.query_ip_service && self.ip_service.as_str().is_empty() {
            messages.push(
                String::from_str(
                    "The IP service cannot be empty if querying the IP service is enabled.",
                ),
            );
        }
        let ghost base = views_of(messages@);
        if self.route53_zones.len() == 0 {
            messages.push(String::from_str("No Route 53 zones have been configured."));
            proof {
                assert(views_of(messages@) =~= self.spec_fault_messages());
            }
        } else {
            let n = self.route53_zones.len();
            let mut i: usize = 0;
            proof {
                assert(spec_zone_messages(self.route53_zones@.take(0)) =~= Seq::<
                    Seq<char>,
                >::empty());
                assert(views_of(messages@) =~= base + spec_zone_messages(
                    self.route53_zones@.take(0),
                ));
            }
            while i < n
                invariant
                    n == self.route53_zones@.len(),
                    i <= n,
                    views_of(messages@) == base + spec_zone_messages(
                        self.route53_zones@.take(i as int),
                    ),
                decreases n - i,
            {
                proof {
                    assert(self.route53_zones@.take(i + 1).drop_last() =~= self.route53_zones@.take(
                        i as int,
                    ));
                    assert(self.route53_zones@.take(i + 1).last() == self.route53_zones@[i as int]);
                }
                if self.route53_zones[i].hostnames.len() == 0 {
                    let msg = String::from_str("No hostnames have been configured for zone ")
                        .concat(self.route53_zones[i].zone_id.as_str()).concat(".");
                    let ghost msgv = msg@;
                    let ghost prior = messages@;
                    messages.push(msg);
                    proof {
                        assert(msgv =~= zone_fault_message(
                            self.route53_zones@[i as int].zone_id@,
                        ));
                        assert(messages@ == prior.push(msg));
                        assert(spec_zone_messages(self.route53_zones@.take(i + 1))
                            =~~= spec_zone_messages(self.route53_zones@.take(i as int)) + seq![
                            zone_fault_message(self.route53_zones@[i as int].zone_id@),
                        ]);
                        assert(views_of(messages@) =~~= views_of(prior).push(msgv));
                        assert(views_of(messages@) =~~= base + spec_zone_messages(
                            self.route53_zones@.take(i + 1),
                        ));
                    }
                } else {
                    proof {
                        assert(views_of(messages@) =~= base + spec_zone_messages(
                            self.route53_zones@.take(i + 1),
                        ));
                    }
                }
                i += 1;
            }
            proof {
                assert(self.route53_zones@.take(n as int) =~= self.route53_zones@);
                assert(views_of(messages@) =~= self.spec_fault_messages());
            }
        }
        if messages.is_empty() {
            proof {
                assert(views_of(messages@) =~= Seq::<Seq<char>>::empty());
            }
            Ok(())
        } else {
            Err(Route53IpUpdateError::InvalidConfig(messages))
        }
    }

    /// The faults `check` reports, in order: the empty IP service where one
    /// is to be queried; then either the absence of any zone, or one message
    /// per zone without hostnames.
    pub open spec fn spec_fault_messages(self) -> Seq<Seq<char>> {
        (if self.query_ip_service && self.ip_service@.len() == 0 {
            seq!["The IP service cannot be empty if querying the IP service is enabled."@]
        } else {
            Seq::<Seq<char>>::empty()
        }) + (if self.route53_zones@.len() == 0 {
            seq!["No Route 53 zones have been configured."@]
        } else {
            spec_zone_messages(self.route53_zones@)
        })
    }

    /// Finds the zone with an identifier, appending a fresh one carrying the
    /// run-wide default TTL when it is missing; returns where it stands.
    pub fn get_or_create_zone_config(&mut self, zone_id: &str) -> (r: usize)
        ensures
            ({
                let (nz, idx) = spec_get_or_create(
                    zone_views(old(self).route53_zones@),
                    zone_id@,
                    old(self).ttl,
                );
                &&& zone_views(final(self).route53_zones@) == nz
                &&& r as int == idx
                &&& r < final(self).route53_zones@.len()
                &&& final(self).address_type == old(self).address_type
                &&& final(self).allow_nonroutable == old(self).allow_nonroutable
                &&& final(self).query_interfaces == old(self).query_interfaces
                &&& final(self).query_ip_service == old(self).query_ip_service
                &&& final(self).ignore_interfaces == old(self).ignore_interfaces
                &&& final(self).ip_service == old(self).ip_service
                &&& final(self).timeout_ms == old(self).timeout_ms
                &&& final(self).ttl == old(self).ttl
            }),
    {
        let ghost zv = zone_views(self.route53_zones@);
        let n = self.route53_zones.len();
        let mut f: usize = 0;
        let mut i: usize = 0;
        proof {
            assert(zv.take(0) =~= Seq::<ZoneConfigView>::empty());
        }
        while i < n
            invariant
                n == self.route53_zones@.len(),
                zv == zone_views(self.route53_zones@),
                i <= n,
                f <= i,
                self == old(self),
                f as int == zone_index(zv.take(i as int), zone_id@),
            decreases n - i,
        {
            proof {
                assert(zv.take(i + 1).drop_last() =~= zv.take(i as int));
                assert(zv.take(i + 1).last() == self.route53_zones@[i as int]@);
            }
            if f == i {
                if str_eq(self.route53_zones[i].zone_id.as_str(), zone_id) {
                } else {
                    f = i + 1;
                }
            }
            i += 1;
        }
        proof {
            assert(zv.take(n as int) =~= zv);
        }
        if f < n {
            return f;
        }
        self.route53_zones.push(
            Route53ZoneConfig {
                zone_id: zone_id.to_owned(),
                hostnames: Vec::new(),
                ttl: self.ttl,
            },
        );
        proof {
            assert(hostname_views(Seq::<HostnameConfig>::empty()) =~= Seq::<
                HostnameConfigView,
            >::empty());
            assert(zone_views(self.route53_zones@) =~= zv.push(
                ZoneConfigView {
                    zone_id: zone_id@,
                    hostnames: Seq::<HostnameConfigView>::empty(),
                    ttl: old(self).ttl,
                },
            ));
        }
        n
    }

    /// Applies command-line overrides: each set field replaces the loaded
    /// one, ignored interfaces are appended, and a named zone is created if
    /// missing and offered the listed hostnames.
    #[verifier::rlimit(60)]
    pub fn update_from_args(&mut self, args: ArgOverrides)
        ensures
            final(self).address_type == (match args.address_type {
                Some(a) => a,
                None => old(self).address_type,
            }),
            final(self).allow_nonroutable == (match args.allow_nonroutable {
                Some(v) => v,
                None => old(self).allow_nonroutable,
            }),
            final(self).query_interfaces == (match args.query_interfaces {
                Some(v) => v,
                None => old(self).query_interfaces,
            }),
            final(self).query_ip_service == (match args.query_ip_service {
                Some(v) => v,
                None => old(self).query_ip_service,
            }),
            final(self).ignore_interfaces is Some,
            views_of(final(self).ignore_interfaces->Some_0@) == (match old(
                self,
            ).ignore_interfaces {
                None => views_of(args.ignore_interfaces@),
                Some(list) => views_of(list@) + views_of(args.ignore_interfaces@),
            }),
            final(self).ip_service@ == (match args.ip_service {
                Some(s) => s@,
                None => old(self).ip_service@,
            }),
            final(self).timeout_ms == (match args.timeout_ms {
                Some(t) => t,
                None => old(self).timeout_ms,
            }),
            final(self).ttl == (match args.ttl {
                Some(t) => Some(t),
                None => old(self).ttl,
            }),
            zone_views(final(self).route53_zones@) == (match args.route53_zone {
                None => zone_views(old(self).route53_zones@),
                Some(zid) => ({
                    let (nz, idx) = spec_get_or_create(
                        zone_views(old(self).route53_zones@),
                        zid@,
                        match args.ttl {
                            Some(t) => Some(t),
                            None => old(self).ttl,
                        },
                    );
                    nz.update(
                        idx,
                        spec_zone_add_hostnames(nz[idx], views_of(args.hostnames@)),
                    )
                }),
            }),
    {
        if let Some(address_type) = args.address_type {
            self.address_type = address_type;
        }
        if let Some(allow_nonroutable) = args.allow_nonroutable {
            self.allow_nonroutable = allow_nonroutable;
        }
        if let Some(query_interfaces) = args.query_interfaces {
            self.query_interfaces = query_interfaces;
        }
        if let Some(query_ip_service) = args.query_ip_service {
            self.query_ip_service = query_ip_service;
        }
        let mut extra = args.ignore_interfaces;
        let ghost extra_views = views_of(extra@);
        match &mut self.ignore_interfaces {
            None => {
                self.ignore_interfaces = Some(extra);
            },
            Some(interfaces) => {
                let ghost prior = views_of(interfaces@);
                interfaces.append(&mut extra);
                proof {
                    assert(views_of(interfaces@) =~= prior + extra_views);
                }
            },
        }
        if let Some(ip_service) = args.ip_service {
            self.ip_service = ip_service;
        }
        if let Some(timeout_ms) = args.timeout_ms {
            self.timeout_ms = timeout_ms;
        }
        if let Some(ttl) = args.ttl {
            self.ttl = Some(ttl);
        }
        if let Some(zone_id) = args.route53_zone {
            let idx = self.get_or_create_zone_config(zone_id.as_str());
            let ghost nz = zone_views(self.route53_zones@);
            let mut zone = self.route53_zones.remove(idx);
            let ghost hv = views_of(args.hostnames@);
            let mut k: usize = 0;
            proof {
                assert(hv.take(0) =~= Seq::<Seq<char>>::empty());
            }
            while k < args.hostnames.len()
                invariant
                    k <= args.hostnames@.len(),
                    hv == views_of(args.hostnames@),
                    zone@ == spec_zone_add_hostnames(nz[idx as int], hv.take(k as int)),
                decreases args.hostnames@.len() - k,
            {
                proof {
                    assert(hv.take(k + 1).drop_last() =~= hv.take(k as int));
                    assert(hv.take(k + 1).last() == args.hostnames@[k as int]@);
                }
                zone.add_hostname(args.hostnames[k].as_str());
                k += 1;
            }
            proof {
                assert(hv.take(args.hostnames@.len() as int) =~= hv);
            }
            self.route53_zones.insert(idx, zone);
            proof {
                assert(zone_views(self.route53_zones@) =~= nz.update(
                    idx as int,
                    spec_zone_add_hostnames(nz[idx as int], hv),
                ));
            }
        }
    }
}

impl Default for Config {
    /// The documented defaults: both families, routable addresses only, the
    /// IP service queried at its default address with a ten-second timeout,
    /// no interface query, and no zones.
    fn default() -> (r: Config)
        ensures
            r.address_type == QueryAddressType::Both,
            r.allow_nonroutable == false,
            r.query_interfaces == false,
            r.query_ip_service == true,
            r.ignore_interfaces is None,
            r.ip_service@ == DEFAULT_IP_SERVICE@,
            r.timeout_ms == 10000,
            r.route53_zones@.len() == 0,
            r.ttl is None,
    {
        Config {
            address_type: QueryAddressType::Both,
            allow_nonroutable: Config::default_allow_nonroutable(),
            query_interfaces: Config::default_query_interfaces(),
            query_ip_service: Config::default_query_ip_service(),
            ignore_interfaces: None,
            ip_service: Config::default_ip_service(),
            timeout_ms: Config::default_timeout(),
            route53_zones: Vec::new(),
            ttl: None,
        }
    }
}

} // verus!
