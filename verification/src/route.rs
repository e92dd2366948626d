//! The routing table: which upstream serves a host, and under which
//! certificate.

use crate::host::{copy_names, listed};
use crate::outside::{same_text, share};
use dashmap::DashMap;
use std::sync::Arc;
use vstd::prelude::*;

verus! {

/// A network endpoint of an upstream: an IP address and a port. An IPv4
/// address stands in the low 32 bits of `ip`, with `v6` false and the last two
/// fields zero.
#[derive(Clone, Copy, Debug, PartialEq, Eq, Structural, Hash)]
pub struct Endpoint {
    pub v6: bool,
    pub ip: u128,
    pub port: u16,
    pub flowinfo: u32,
    pub scope_id: u32,
}

/// An endpoint as the tuple by which it is ordered and found again: first the
/// IPv4 endpoints, then those of IPv6, each by address, then by port, then by
/// the last two fields.
pub type AddrKey = (bool, u128, u16, u32, u32);

/// The tuple of an endpoint.
pub open spec fn key_of(e: Endpoint) -> AddrKey {
    (e.v6, e.ip, e.port, e.flowinfo, e.scope_id)
}

/// The endpoint of a tuple.
pub open spec fn endpoint_of(k: AddrKey) -> Endpoint {
    Endpoint { v6: k.0, ip: k.1, port: k.2, flowinfo: k.3, scope_id: k.4 }
}

impl Endpoint {
    /// The tuple of this endpoint.
    pub fn key(&self) -> (k: AddrKey)
        ensures
            k == key_of(*self),
            endpoint_of(k) == *self,
    {
        (self.v6, self.ip, self.port, self.flowinfo, self.scope_id)
    }

    /// The endpoint of a tuple.
    pub fn from_key(k: AddrKey) -> (e: Endpoint)
        ensures
            e == endpoint_of(k),
            key_of(e) == k,
    {
        Endpoint { v6: k.0, ip: k.1, port: k.2, flowinfo: k.3, scope_id: k.4 }
    }
}

/// The protocol spoken to an upstream.
#[derive(Clone, Copy, Debug, PartialEq, Eq, Structural)]
pub enum Protocol {
    H1,
}

/// A pool of backend addresses and how to talk to them.
#[derive(Debug)]
pub struct Upstream {
    pub addr_li: Vec<Endpoint>,
    pub connect_timeout_sec: u64,
    pub request_timeout_sec: u64,
    pub max_retry: usize,
    pub protocol: Protocol,
}

impl Upstream {
    /// An upstream is well formed when it has an address and its two timeouts
    /// are positive.
    pub open spec fn wf(self) -> bool {
        &&& self.addr_li@.len() >= 1
        &&& self.connect_timeout_sec > 0
        &&& self.request_timeout_sec > 0
    }
}

/// What the routing table knows of one host.
#[derive(Debug)]
pub struct SiteConf {
    pub upstream: Arc<Upstream>,
    pub cert_host: String,
}

impl SiteConf {
    pub fn new(upstream: Arc<Upstream>, cert_host: String) -> (conf: Self)
        ensures
            conf == (SiteConf { upstream, cert_host }),
    {
        Self { upstream, cert_host }
    }

    /// A second handle on the same configuration.
    pub fn duplicate(&self) -> (conf: Self)
        ensures
            conf == *self,
    {
        Self { upstream: share(&self.upstream), cert_host: self.cert_host.clone() }
    }
}

/// A registered upstream and the hosts that were pointed at it.
#[derive(Debug)]
pub struct UpstreamSiteSet {
    pub upstream: Arc<Upstream>,
    pub host_set: Vec<String>,
}

impl UpstreamSiteSet {
    /// The hosts of the set.
    pub open spec fn hosts(self) -> Set<Seq<char>> {
        Set::new(|h: Seq<char>| listed(self.host_set@, h))
    }
}

/// What the map of hosts holds.
pub uninterp spec fn site_entries(m: DashMap<String, SiteConf>) -> Map<Seq<char>, SiteConf>;

pub open spec fn no_sites() -> Map<Seq<char>, SiteConf> {
    Map::empty()
}

/// `DashMap::new`: a map that holds nothing.
#[verifier::external_body]
fn sites_new() -> (m: DashMap<String, SiteConf>)
    ensures
        site_entries(m) == no_sites(),
{
    DashMap::new()
}

/// `DashMap::insert`: afterwards the map holds `conf` under `host`, in place of
/// what it held there, and everything else as before.
#[verifier::external_body]
fn sites_insert(m: &mut DashMap<String, SiteConf>, host: String, conf: SiteConf)
    ensures
        site_entries(*final(m)) == site_entries(*old(m)).insert(host@, conf),
{
    m.insert(host, conf);
}

/// `DashMap::get`, with the value found handed out as a second handle: `Some`
/// of what the map holds under `host`, `None` where it holds nothing there.
#[verifier::external_body]
fn sites_get(m: &DashMap<String, SiteConf>, host: &str) -> (found: Option<SiteConf>)
    ensures
        found == (if site_entries(*m).contains_key(host@) {
            Some(site_entries(*m)[host@])
        } else {
            None
        }),
{
    m.get(host).map(|r| r.value().duplicate())
}

/// `DashMap::contains_key`: whether the map holds anything under `host`.
#[verifier::external_body]
fn sites_contains(m: &DashMap<String, SiteConf>, host: &str) -> (found: bool)
    ensures
        found == site_entries(*m).contains_key(host@),
{
    m.contains_key(host)
}

/// `i` is the place of the first entry called `name`.
pub open spec fn first_named(
    list: Seq<(String, UpstreamSiteSet)>,
    name: Seq<char>,
    i: int,
) -> bool {
    &&& 0 <= i < list.len()
    &&& list[i].0@ == name
    &&& forall|j: int| 0 <= j < i ==> (#[trigger] list[j]).0@ != name
}

/// The place of the first entry called `name`, if there is one.
pub open spec fn position_of(list: Seq<(String, UpstreamSiteSet)>, name: Seq<char>) -> Option<int> {
    if exists|i: int| first_named(list, name, i) {
        Some(choose|i: int| first_named(list, name, i))
    } else {
        None
    }
}

proof fn lemma_position(list: Seq<(String, UpstreamSiteSet)>, name: Seq<char>, i: int)
    requires
        first_named(list, name, i),
    ensures
        position_of(list, name) == Some(i),
{
    let k = choose|k: int| first_named(list, name, k);
    if k < i {
        assert(list[k].0@ != name);
    } else if i < k {
        assert(list[i].0@ != name);
    }
}

proof fn lemma_no_position(list: Seq<(String, UpstreamSiteSet)>, name: Seq<char>)
    requires
        forall|j: int| 0 <= j < list.len() ==> (#[trigger] list[j]).0@ != name,
    ensures
        position_of(list, name) is None,
{
    if exists|i: int| first_named(list, name, i) {
        let i = choose|i: int| first_named(list, name, i);
        assert(list[i].0@ != name);
    }
}

/// Where a position is found the entry there has the name; where none is
/// found no entry has it.
proof fn lemma_position_of(list: Seq<(String, UpstreamSiteSet)>, name: Seq<char>)
    ensures
        match position_of(list, name) {
            Some(i) => first_named(list, name, i),
            None => forall|j: int| 0 <= j < list.len() ==> (#[trigger] list[j]).0@ != name,
        },
    decreases list.len(),
{
    if position_of(list, name) is None {
        assert forall|j: int| 0 <= j < list.len() implies (#[trigger] list[j]).0@ != name by {
            if list[j].0@ == name {
                lemma_has_first(list, name, j);
            }
        }
    }
}

proof fn lemma_has_first(list: Seq<(String, UpstreamSiteSet)>, name: Seq<char>, j: int)
    requires
        0 <= j < list.len(),
        list[j].0@ == name,
    ensures
        exists|i: int| first_named(list, name, i),
    decreases j,
{
    if exists|k: int| 0 <= k < j && (#[trigger] list[k]).0@ == name {
        let k = choose|k: int| 0 <= k < j && (#[trigger] list[k]).0@ == name;
        lemma_has_first(list, name, k);
    } else {
        assert(first_named(list, name, j));
    }
}

/// Two lists with the same names in the same places give every name the same
/// position.
proof fn lemma_positions_kept(
    before: Seq<(String, UpstreamSiteSet)>,
    after: Seq<(String, UpstreamSiteSet)>,
)
    requires
        before.len() <= after.len(),
        forall|k: int| 0 <= k < before.len() ==> (#[trigger] after[k]).0@ == before[k].0@,
    ensures
        forall|name: Seq<char>|
            position_of(before, name) is Some ==> position_of(after, name) == position_of(
                before,
                name,
            ),
        forall|name: Seq<char>|
            (forall|k: int| before.len() <= k < after.len() ==> (#[trigger] after[k]).0@ != name)
                ==> position_of(after, name) == position_of(before, name),
{
    assert forall|name: Seq<char>| position_of(before, name) is Some implies position_of(
        after,
        name,
    ) == position_of(before, name) by {
        lemma_position_of(before, name);
        let i = position_of(before, name)->0;
        assert(first_named(after, name, i)) by {
            assert(after[i].0@ == before[i].0@);
            assert forall|j: int| 0 <= j < i implies (#[trigger] after[j]).0@ != name by {
                assert(before[j].0@ != name);
            }
        }
        lemma_position(after, name, i);
    }
    assert forall|name: Seq<char>|
        (forall|k: int| before.len() <= k < after.len() ==> (#[trigger] after[k]).0@ != name)
            && position_of(before, name) is None implies position_of(after, name) is None by {
        lemma_position_of(before, name);
        assert forall|j: int| 0 <= j < after.len() implies (#[trigger] after[j]).0@ != name by {
            if j < before.len() {
                assert(before[j].0@ != name);
            }
        }
        lemma_no_position(after, name);
    }
}

/// No two entries of the list have the same name.
pub open spec fn distinct_names(list: Seq<(String, UpstreamSiteSet)>) -> bool {
    forall|i: int, j: int|
        0 <= i < j < list.len() ==> (#[trigger] list[i]).0@ != (#[trigger] list[j]).0@
}

/// No name stands twice in the list.
pub open spec fn distinct_hosts(hosts: Seq<String>) -> bool {
    forall|i: int, j: int| 0 <= i < j < hosts.len() ==> (#[trigger] hosts[i])@ != (#[trigger] hosts[j])@
}

/// The routing table. `host_conf` maps a host to its site configuration, by
/// exact match. `upstream_site` holds the upstreams by name; it is read while
/// hosts are added and not on the request path.
pub struct Route {
    host_conf: DashMap<String, SiteConf>,
    upstream_site: Vec<(String, UpstreamSiteSet)>,
}

impl Route {
    /// The site configurations by host.
    pub closed spec fn sites(&self) -> Map<Seq<char>, SiteConf> {
        site_entries(self.host_conf)
    }

    /// The upstream registered under `name`, with its hosts.
    pub closed spec fn upstream_named(&self, name: Seq<char>) -> Option<UpstreamSiteSet> {
        match position_of(self.upstream_site@, name) {
            Some(i) => Some(self.upstream_site@[i].1),
            None => None,
        }
    }

    /// What holds of a routing table that was filled with well-formed
    /// upstreams: each upstream that it knows, by name or through a host, is
    /// well formed; no name is registered twice; and no host stands twice
    /// among the hosts of an upstream.
    pub closed spec fn valid(&self) -> bool {
        &&& forall|h: Seq<char>| #[trigger]
            self.sites().contains_key(h) ==> self.sites()[h].upstream.wf()
        &&& distinct_names(self.upstream_site@)
        &&& forall|i: int|
            0 <= i < self.upstream_site@.len() ==> {
                &&& (#[trigger] self.upstream_site@[i]).1.upstream.wf()
                &&& distinct_hosts(self.upstream_site@[i].1.host_set@)
            }
    }

    /// An empty table.
    pub fn new() -> (route: Self)
        ensures
            route.valid(),
            route.sites() == no_sites(),
            forall|name: Seq<char>| route.upstream_named(name) is None,
    {
        let route = Route { host_conf: sites_new(), upstream_site: Vec::new() };
        proof {
            assert forall|name: Seq<char>| route.upstream_named(name) is None by {
                lemma_no_position(route.upstream_site@, name);
            }
        }
        route
    }

    fn find(&self, name: &str) -> (at: Option<usize>)
        ensures
            match at {
                Some(i) => position_of(self.upstream_site@, name@) == Some(i as int) && i
                    < self.upstream_site@.len(),
                None => position_of(self.upstream_site@, name@) is None,
            },
    {
        let mut i: usize = 0;
        while i < self.upstream_site.len()
            invariant
                i <= self.upstream_site@.len(),
                forall|k: int| 0 <= k < i ==> (#[trigger] self.upstream_site@[k]).0@ != name@,
            decreases self.upstream_site@.len() - i,
        {
            if same_text(self.upstream_site[i].0.as_str(), name) {
                proof {
                    lemma_position(self.upstream_site@, name@, i as int);
                }
                return Some(i);
            }
            i += 1;
        }
        proof {
            lemma_no_position(self.upstream_site@, name@);
        }
        None
    }

    /// Registers `upstream` under `upstream_name`, with no hosts yet. An
    /// upstream that had the name before is replaced.
    pub fn add_upstream(&mut self, upstream_name: String, upstream: Upstream)
        requires
            upstream.wf(),
        ensures
            old(self).valid() ==> final(self).valid(),
            final(self).sites() == old(self).sites(),
            final(self).upstream_named(upstream_name@) matches Some(entry) && *entry.upstream
                == upstream && entry.host_set@.len() == 0,
            forall|name: Seq<char>|
                name != upstream_name@ ==> final(self).upstream_named(name) == old(
                    self,
                ).upstream_named(name),
    {
        let entry = UpstreamSiteSet { upstream: Arc::new(upstream), host_set: Vec::new() };
        let ghost name = upstream_name@;
        let ghost at: int;
        match self.find(upstream_name.as_str()) {
            Some(i) => {
                proof {
                    at = i as int;
                    lemma_position_of(self.upstream_site@, name);
                }
                self.upstream_site[i] = (upstream_name, entry);
            },
            None => {
                proof {
                    at = self.upstream_site@.len() as int;
                    lemma_position_of(self.upstream_site@, name);
                }
                self.upstream_site.push((upstream_name, entry));
            },
        }
        proof {
            let before = old(self).upstream_site@;
            let after = self.upstream_site@;
            assert(first_named(after, name, at)) by {
                assert forall|j: int| 0 <= j < at implies (#[trigger] after[j]).0@ != name by {
                    assert(after[j] == before[j]);
                }
            }
            lemma_position(after, name, at);
            if distinct_names(before) {
                assert forall|i: int, j: int| 0 <= i < j < after.len() implies (#[trigger] after[i]).0@
                    != (#[trigger] after[j]).0@ by {
                    if i != at && j != at {
                        assert(after[i] == before[i] && after[j] == before[j]);
                    } else if at < before.len() {
                        assert(before[i].0@ != before[j].0@);
                        if i != at {
                            assert(after[i] == before[i]);
                        }
                        if j != at {
                            assert(after[j] == before[j]);
                        }
                    } else {
                        assert(after[i] == before[i]);
                    }
                }
            }
            assert forall|other: Seq<char>| other != name implies self.upstream_named(other) == old(
                self,
            ).upstream_named(other) by {
                lemma_position_of(before, other);
                match position_of(before, other) {
                    Some(k) => {
                        assert(after[k] == before[k]);
                        assert(first_named(after, other, k)) by {
                            assert forall|j: int| 0 <= j < k implies (#[trigger] after[j]).0@
                                != other by {
                                if j != at {
                                    assert(after[j] == before[j]);
                                }
                            }
                        }
                        lemma_position(after, other, k);
                    },
                    None => {
                        assert forall|k: int| 0 <= k < after.len() implies (#[trigger] after[k]).0@
                            != other by {
                            if k != at {
                                assert(after[k] == before[k]);
                            }
                        }
                        lemma_no_position(after, other);
                    },
                }
            }
        }
    }

    /// Points `host` at the upstream called `upstream_name`, to be served under
    /// the certificate of `cert_host`. Where no upstream has that name, nothing
    /// changes.
    pub fn set(&mut self, host: String, cert_host: String, upstream_name: &str) -> (route:
        &mut Self)
        ensures
            *final(self) == *final(route),
            old(self).valid() ==> route.valid(),
            match old(self).upstream_named(upstream_name@) {
                Some(entry) => {
                    &&& route.sites() == old(self).sites().insert(
                        host@,
                        SiteConf { upstream: entry.upstream, cert_host },
                    )
                    &&& route.upstream_named(upstream_name@) matches Some(after)
                    &&& after.upstream == entry.upstream
                    &&& after.hosts() == entry.hosts().insert(host@)
                },
                None => {
                    &&& route.sites() == old(self).sites()
                    &&& route.upstream_named(upstream_name@) is None
                },
            },
            forall|name: Seq<char>|
                name != upstream_name@ ==> route.upstream_named(name) == old(self).upstream_named(
                    name,
                ),
    {
        if let Some(i) = self.find(upstream_name) {
            let ghost entry = self.upstream_site@[i as int].1;
            if !holds(&self.upstream_site[i].1.host_set, host.as_str()) {
                self.upstream_site[i].1.host_set.push(host.clone());
            }
            proof {
                let after = self.upstream_site@[i as int].1;
                assert(after.host_set@.len() > 0 && listed(after.host_set@, host@)) by {
                    if !listed(entry.host_set@, host@) {
                        assert(after.host_set@[after.host_set@.len() - 1]@ == host@);
                    }
                }
                assert forall|h: Seq<char>| listed(after.host_set@, h) <==> (h == host@ || listed(
                    entry.host_set@,
                    h,
                )) by {
                    if listed(entry.host_set@, h) {
                        let k = choose|k: int|
                            0 <= k < entry.host_set@.len() && (#[trigger] entry.host_set@[k])@ == h;
                        assert(after.host_set@[k]@ == h);
                    }
                    if listed(after.host_set@, h) && h != host@ {
                        let k = choose|k: int|
                            0 <= k < after.host_set@.len() && (#[trigger] after.host_set@[k])@ == h;
                        assert(entry.host_set@[k]@ == h);
                    }
                }
                assert(after.hosts() =~= entry.hosts().insert(host@));
                lemma_positions_kept(old(self).upstream_site@, self.upstream_site@);
                if old(self).valid() {
                    let list = self.upstream_site@;
                    let first = old(self).upstream_site@;
                    assert forall|a: int, b: int| 0 <= a < b < list.len() implies (
                    #[trigger] list[a]).0@ != (#[trigger] list[b]).0@ by {
                        assert(first[a].0@ != first[b].0@);
                    }
                    assert(distinct_hosts(after.host_set@)) by {
                        assert(distinct_hosts(entry.host_set@)) by {
                            assert(first[i as int].1 == entry);
                        }
                        assert forall|a: int, b: int|
                            0 <= a < b < after.host_set@.len() implies (
                        #[trigger] after.host_set@[a])@ != (#[trigger] after.host_set@[b])@ by {
                            if b < entry.host_set@.len() {
                                assert(entry.host_set@[a]@ != entry.host_set@[b]@);
                            } else {
                                assert(entry.host_set@[a]@ != host@);
                            }
                        }
                    }
                    assert forall|k: int| 0 <= k < list.len() implies {
                        &&& (#[trigger] list[k]).1.upstream.wf()
                        &&& distinct_hosts(list[k].1.host_set@)
                    } by {
                        if k != i {
                            assert(list[k] == first[k]);
                        } else {
                            assert(first[k].1.upstream.wf());
                        }
                    }
                }
                assert forall|name: Seq<char>|
                    position_of(self.upstream_site@, name) == position_of(
                        old(self).upstream_site@,
                        name,
                    ) by {}
            }
            let upstream = share(&self.upstream_site[i].1.upstream);
            sites_insert(&mut self.host_conf, host, SiteConf::new(upstream, cert_host));
        }
        self
    }

    /// The site configuration of `host`, by exact match. In a valid table it
    /// names an upstream with at least one address.
    pub fn conf_by_host(&self, host: &str) -> (conf: Option<SiteConf>)
        ensures
            conf == (if self.sites().contains_key(host@) {
                Some(self.sites()[host@])
            } else {
                None
            }),
            self.valid() ==> (conf matches Some(c) ==> c.upstream.addr_li@.len() >= 1),
    {
        sites_get(&self.host_conf, host)
    }

    /// The hosts that were pointed at the upstream called `upstream_name`, in
    /// the order in which they were first pointed at it; `None` where no
    /// upstream has the name.
    pub fn hosts_of(&self, upstream_name: &str) -> (hosts: Option<Vec<String>>)
        ensures
            match self.upstream_named(upstream_name@) {
                Some(entry) => hosts matches Some(list) && list@.len() == entry.host_set@.len()
                    && forall|k: int|
                    0 <= k < list@.len() ==> (#[trigger] list@[k])@ == entry.host_set@[k]@,
                None => hosts is None,
            },
    {
        match self.find(upstream_name) {
            Some(i) => Some(copy_names(&self.upstream_site[i].1.host_set)),
            None => None,
        }
    }

    /// Every host of a valid table has an upstream with at least one address.
    pub proof fn lemma_sites_have_addresses(self, host: Seq<char>)
        requires
            self.valid(),
            self.sites().contains_key(host),
        ensures
            self.sites()[host].upstream.addr_li@.len() >= 1,
            self.sites()[host].upstream.wf(),
    {
    }

    /// Whether the table has an entry for exactly `host`.
    pub fn contains_host(&self, host: &str) -> (found: bool)
        ensures
            found == self.sites().contains_key(host@),
    {
        sites_contains(&self.host_conf, host)
    }
}

impl Default for Route {
    /// An empty table.
    fn default() -> (route: Self)
        ensures
            route.valid(),
            route.sites() == no_sites(),
            forall|name: Seq<char>| route.upstream_named(name) is None,
    {
        Route::new()
    }
}

/// Whether `host` is one of `hosts`.
fn holds(hosts: &Vec<String>, host: &str) -> (found: bool)
    ensures
        found == listed(hosts@, host@),
{
    let mut i: usize = 0;
    while i < hosts.len()
        invariant
            i <= hosts@.len(),
            forall|k: int| 0 <= k < i ==> (#[trigger] hosts@[k])@ != host@,
        decreases hosts@.len() - i,
    {
        if same_text(hosts[i].as_str(), host) {
            return true;
        }
        i += 1;
    }
    false
}

} // verus!
