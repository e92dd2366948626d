//! The certificate loader: a cache of certificates by host, filled on demand
//! from a provider, and an index by day of expiry from which the cache is
//! emptied of what is about to expire.

use crate::cert::Cert;
use crate::error::Error;
use crate::host::{copy_names, listed, parent_host, sub_host};
use crate::outside::share;
use dashmap::DashMap;
use std::collections::BTreeMap;
use std::sync::Arc;
use vstd::prelude::*;
use vstd::std_specs::btree::{increasing_seq, spec_btree_map_iter};
use vstd::std_specs::cmp::OrdSpec;
use vstd::std_specs::iter::IteratorSpec;
use vstd::string::StringExecFns;

pub mod dir;
pub mod leaf;

pub use dir::CertDir;
pub use leaf::{Leaf, SanName};

use leaf::{
    cache_key, day_of, dns_of, expiry_day, name_views, read_leaf, shortest, x509_leaf, LeafView,
};

verus! {

/// A provider of certificates. `load` yields the certificate for a host,
/// `None` where it has none, or fails.
pub trait CertLoad {
    fn load(&self, host: &str) -> core::result::Result<Option<Arc<Cert>>, Error>;
}

/// What the cache of certificates holds.
pub uninterp spec fn cert_entries(m: DashMap<String, Arc<Cert>>) -> Map<Seq<char>, Arc<Cert>>;

pub open spec fn no_certs() -> Map<Seq<char>, Arc<Cert>> {
    Map::empty()
}

/// What a look into the cache finds.
pub open spec fn found_in(certs: Map<Seq<char>, Arc<Cert>>, host: Seq<char>) -> Option<Arc<Cert>> {
    if certs.contains_key(host) {
        Some(certs[host])
    } else {
        None
    }
}

/// `DashMap::new`: a map that holds nothing.
#[verifier::external_body]
fn certs_new() -> (m: DashMap<String, Arc<Cert>>)
    ensures
        cert_entries(m) == no_certs(),
{
    DashMap::new()
}

/// `DashMap::get`, with the certificate found handed out as a second handle:
/// what the map holds under `host`, `None` where it holds nothing there.
#[verifier::external_body]
fn certs_get(m: &DashMap<String, Arc<Cert>>, host: &str) -> (found: Option<Arc<Cert>>)
    ensures
        found == found_in(cert_entries(*m), host@),
{
    m.get(host).map(|r| Arc::clone(r.value()))
}

/// `DashMap::insert`: afterwards the map holds `cert` under `host`, in place of
/// what it held there, and everything else as before.
#[verifier::external_body]
fn certs_insert(m: &mut DashMap<String, Arc<Cert>>, host: String, cert: Arc<Cert>)
    ensures
        cert_entries(*final(m)) == cert_entries(*old(m)).insert(host@, cert),
{
    m.insert(host, cert);
}

/// `DashMap::remove`: afterwards the map holds nothing under `host`, and
/// everything else as before.
#[verifier::external_body]
fn certs_remove(m: &mut DashMap<String, Arc<Cert>>, host: &str)
    ensures
        cert_entries(*final(m)) == cert_entries(*old(m)).remove(host@),
{
    m.remove(host);
}

/// `Clock::now_since_epoch` and `Duration::as_secs`: the seconds since 1970 by
/// the system's clock. Nothing is claimed of the value.
#[verifier::external_body]
fn now_secs() -> u64 {
    coarsetime::Clock::now_since_epoch().as_secs()
}

/// The leaf of a certificate as an X.509 parser reads it; `None` where the
/// chain is empty or its first entry cannot be read.
pub open spec fn leaf_of(cert: Cert) -> Option<LeafView> {
    if cert.rustls.fullchain@.len() == 0 {
        None
    } else {
        x509_leaf(cert.rustls.fullchain@[0]@)
    }
}

/// A cached certificate is in order: it is cached under the shortest DNS name
/// of its leaf, and the index lists that name under the day on which the leaf
/// expires.
pub open spec fn entry_ok(key: Seq<char>, cert: Cert, index: Map<i64, Vec<String>>) -> bool {
    &&& leaf_of(cert) matches Some(leaf)
    &&& cache_key(leaf) == Some(key)
    &&& index.contains_key(expiry_day(leaf))
    &&& listed(index[expiry_day(leaf)]@, key)
}

/// The index lists the name of a cached certificate under no day but that of
/// its expiry.
pub open spec fn entry_once(key: Seq<char>, cert: Cert, index: Map<i64, Vec<String>>) -> bool {
    leaf_of(cert) matches Some(leaf) ==> forall|d: i64|
        #![trigger index.contains_key(d)]
        index.contains_key(d) && listed(index[d]@, key) ==> d == expiry_day(leaf)
}

/// The index lists `host` under a day before `bound`.
pub open spec fn expiring(index: Map<i64, Vec<String>>, bound: int, host: Seq<char>) -> bool {
    exists|d: i64| #[trigger] index.contains_key(d) && d < bound && listed(index[d]@, host)
}

/// What a provider hands back.
pub type Loaded = core::result::Result<Option<Arc<Cert>>, Error>;

/// The index lists `key` under a day other than `day`.
pub open spec fn listed_elsewhere(index: Map<i64, Vec<String>>, key: Seq<char>, day: i64) -> bool {
    exists|d: i64| #[trigger] index.contains_key(d) && d != day && listed(index[d]@, key)
}

/// The index after `key` was added to the list of `day`: that list is the old
/// one, or an empty one where the day was not in the index, with `key` at its
/// end; every other day is as before.
pub open spec fn index_with(
    before: Map<i64, Vec<String>>,
    after: Map<i64, Vec<String>>,
    day: i64,
    key: Seq<char>,
) -> bool {
    &&& after.contains_key(day)
    &&& name_views(after[day]@) == (if before.contains_key(day) {
        name_views(before[day]@)
    } else {
        Seq::empty()
    }).push(key)
    &&& forall|d: i64|
        #![trigger after.contains_key(d)]
        #![trigger before.contains_key(d)]
        d != day ==> (after.contains_key(d) <==> before.contains_key(d))
    &&& forall|d: i64| #[trigger] after.contains_key(d) && d != day ==> after[d] == before[d]
}

/// The loader: the cache, the index by day of expiry, and the provider.
pub struct CertLoader<L: CertLoad> {
    host_cert: DashMap<String, Arc<Cert>>,
    expire: BTreeMap<i64, Vec<String>>,
    loader: L,
}

impl<L: CertLoad> CertLoader<L> {
    /// The certificates in the cache, by the name each is cached under.
    pub closed spec fn cached(&self) -> Map<Seq<char>, Arc<Cert>> {
        cert_entries(self.host_cert)
    }

    /// The index: for a day, the names of the certificates that expire on it.
    pub closed spec fn expiry(&self) -> Map<i64, Vec<String>> {
        self.expire@
    }

    /// Every cached certificate is in order.
    pub open spec fn valid(&self) -> bool {
        forall|k: Seq<char>| #[trigger]
            self.cached().contains_key(k) ==> entry_ok(k, *self.cached()[k], self.expiry())
    }

    /// The name of every cached certificate stands under one day only.
    pub open spec fn indexed_once(&self) -> bool {
        forall|k: Seq<char>| #[trigger]
            self.cached().contains_key(k) ==> entry_once(k, *self.cached()[k], self.expiry())
    }

    /// A loader with an empty cache.
    pub fn new(loader: L) -> (made: Self)
        ensures
            made.cached() == no_certs(),
            made.expiry() == Map::<i64, Vec<String>>::empty(),
            made.valid(),
            made.indexed_once(),
    {
        CertLoader { host_cert: certs_new(), expire: BTreeMap::new(), loader }
    }

    /// The certificate cached under exactly `host`, if there is one.
    pub fn cached_cert(&self, host: &str) -> (found: Option<Arc<Cert>>)
        ensures
            found == found_in(self.cached(), host@),
    {
        certs_get(&self.host_cert, host)
    }

    /// The names that the index lists under `day`, in the order in which they
    /// were listed; none where the index does not have the day.
    pub fn hosts_on(&self, day: i64) -> (hosts: Vec<String>)
        ensures
            name_views(hosts@) == (if self.expiry().contains_key(day) {
                name_views(self.expiry()[day]@)
            } else {
                Seq::empty()
            }),
    {
        match self.expire.get(&day) {
            Some(list) => {
                let hosts = copy_names(list);
                assert(name_views(hosts@) =~= name_views(list@));
                hosts
            },
            None => {
                let hosts: Vec<String> = Vec::new();
                assert(name_views(hosts@) =~= Seq::<Seq<char>>::empty());
                hosts
            },
        }
    }

    /// The days of the index, in increasing order.
    pub fn days(&self) -> (days: Vec<i64>)
        ensures
            forall|d: i64|
                #![trigger days@.contains(d)]
                #![trigger self.expiry().contains_key(d)]
                days@.contains(d) <==> self.expiry().contains_key(d),
            forall|i: int, j: int| 0 <= i < j < days@.len() ==> days@[i] < days@[j],
    {
        let mut days: Vec<i64> = Vec::new();
        let ghost s = spec_btree_map_iter(&self.expire).remaining();
        let ghost keys = s.map_values(|kv: (&i64, &Vec<String>)| *kv.0);
        let ghost mut n: int = 0;
        let iter = self.expire.iter();
        assert(increasing_seq(keys));
        for kv in it: iter
            invariant
                n == it.index(),
                it.seq() == s,
                0 <= n <= s.len(),
                keys == s.map_values(|kv: (&i64, &Vec<String>)| *kv.0),
                days@ == keys.subrange(0, n),
        {
            let (day, hosts) = kv;
            assert(kv == s[n]);
            days.push(*day);
            proof {
                assert(keys.subrange(0, n + 1) == keys.subrange(0, n).push(*day));
                n = n + 1;
            }
        }
        proof {
            assert(days@ == keys);
            lemma_increasing(keys);
            assert forall|d: i64|
                #![trigger days@.contains(d)]
                #![trigger self.expiry().contains_key(d)]
                days@.contains(d) <==> self.expiry().contains_key(d) by {
                if days@.contains(d) {
                    let j = choose|j: int| 0 <= j < days@.len() && days@[j] == d;
                    assert(self.expire@.contains_key(*s[j].0));
                }
                if self.expire@.contains_key(d) {
                    assert(s.contains((&d, &self.expire@[d])));
                    let j = choose|j: int| 0 <= j < s.len() && s[j] == (&d, &self.expire@[d]);
                    assert(keys[j] == d);
                }
            }
        }
        days
    }

    /// Neither the cache nor the index differs from `before`.
    pub open spec fn same_as(self, before: Self) -> bool {
        self.cached() == before.cached() && self.expiry() == before.expiry()
    }

    /// The cache and the index after `cert` was taken in, seen from `before`.
    /// A certificate without a DNS name changes nothing. Any other is cached
    /// under the shortest of its DNS names, in place of what was cached there,
    /// and that name is added to the list of the day on which it expires.
    pub open spec fn took_in(self, before: Self, cert: Arc<Cert>) -> bool {
        match leaf_of(*cert) {
            Some(leaf) => match cache_key(leaf) {
                Some(key) => {
                    &&& self.cached() == before.cached().insert(key, cert)
                    &&& index_with(before.expiry(), self.expiry(), expiry_day(leaf), key)
                },
                None => self.same_as(before),
            },
            None => self.same_as(before),
        }
    }

    /// What the loader makes of what its provider handed back. A failure of
    /// the provider is passed on, and so is its having no certificate. A
    /// certificate is taken in and handed on, unless its leaf cannot be read,
    /// which is an error.
    pub open spec fn settled(self, before: Self, loaded: Loaded, result: Loaded) -> bool {
        match loaded {
            Err(e) => result == Loaded::Err(e) && self.same_as(before),
            Ok(None) => result == Loaded::Ok(None) && self.same_as(before),
            Ok(Some(cert)) => if leaf_of(*cert) is Some {
                result == Loaded::Ok(Some(cert)) && self.took_in(before, cert)
            } else {
                result matches Err(Error::CertParse(_)) && self.same_as(before)
            },
        }
    }

    /// The name under which `cert` would be cached stands under no other day
    /// of the index than that on which `cert` expires.
    pub open spec fn fresh(self, cert: Arc<Cert>) -> bool {
        leaf_of(*cert) matches Some(leaf) ==> (cache_key(leaf) matches Some(key)
            ==> !listed_elsewhere(self.expiry(), key, expiry_day(leaf)))
    }

    /// Takes a certificate in: reads its leaf, caches the certificate under
    /// the shortest DNS name of the leaf, and lists that name in the index
    /// under the day on which the leaf expires.
    pub fn take_in(&mut self, cert: Arc<Cert>) -> (result: core::result::Result<Arc<Cert>, Error>)
        ensures
            match leaf_of(*cert) {
                Some(leaf) => {
                    &&& result == core::result::Result::<Arc<Cert>, Error>::Ok(cert)
                    &&& final(self).took_in(*old(self), cert)
                },
                None => result matches Err(Error::CertParse(_)) && final(self).same_as(*old(self)),
            },
            old(self).valid() ==> final(self).valid(),
            old(self).indexed_once() && old(self).fresh(cert) ==> final(self).indexed_once(),
    {
        if cert.rustls.fullchain.len() == 0 {
            return Err(Error::CertParse(String::from_str("leaf: the chain is empty")));
        }
        let leaf = match read_leaf(cert.rustls.fullchain[0].as_slice()) {
            Ok(leaf) => leaf,
            Err(e) => {
                return Err(Error::CertParse(String::from_str("leaf: ").concat(e.as_str())));
            },
        };
        let day = day_of(&leaf);
        let names = dns_of(&leaf.names);
        match shortest(&names) {
            Some(i) => {
                let key = names[i].clone();
                let ghost index = self.expire@;
                certs_insert(&mut self.host_cert, key.clone(), share(&cert));
                let mut bucket = match self.expire.remove(&day) {
                    Some(b) => b,
                    None => Vec::new(),
                };
                let ghost earlier = bucket@;
                bucket.push(key);
                let ghost later = bucket@;
                self.expire.insert(day, bucket);
                proof {
                    assert(name_views(later) == name_views(earlier).push(key@));
                    if !index.contains_key(day) {
                        assert(name_views(earlier) == Seq::<Seq<char>>::empty());
                    }
                    lemma_pushed(earlier, later, key@);
                    assert(index_with(index, self.expire@, day, key@));
                    lemma_took_in(*old(self), *self, cert, leaf@, key@);
                }
            },
            None => {},
        }
        Ok(cert)
    }

    /// Settles what the provider handed back for a host that is not cached.
    pub fn settle(&mut self, loaded: Loaded) -> (result: Loaded)
        ensures
            final(self).settled(*old(self), loaded, result),
            old(self).valid() ==> final(self).valid(),
            old(self).indexed_once() && (loaded matches Ok(Some(cert)) ==> old(self).fresh(cert))
                ==> final(self).indexed_once(),
    {
        match loaded {
            Err(e) => Err(e),
            Ok(None) => Ok(None),
            Ok(Some(cert)) => match self.take_in(cert) {
                Ok(c) => Ok(Some(c)),
                Err(e) => Err(e),
            },
        }
    }

    /// What `cert_by_host` does for `host`, given what the provider hands back
    /// if it is asked: a cached certificate is handed out and nothing changes;
    /// for any other host the provider's answer is settled.
    pub open spec fn looked_up(
        self,
        before: Self,
        host: Seq<char>,
        loaded: Loaded,
        result: Loaded,
    ) -> bool {
        if before.cached().contains_key(host) {
            result == Loaded::Ok(Some(before.cached()[host])) && self.same_as(before)
        } else {
            self.settled(before, loaded, result)
        }
    }

    /// The certificate for exactly `host`: the cached one, or else the one
    /// that the provider has for it, which is then taken in.
    pub fn cert_by_host(&mut self, host: &str) -> (result: Loaded)
        ensures
            exists|loaded: Loaded| #[trigger]
                final(self).looked_up(*old(self), host@, loaded, result),
            old(self).cached().contains_key(host@) ==> result == Loaded::Ok(
                Some(old(self).cached()[host@]),
            ) && final(self).same_as(*old(self)),
            old(self).valid() ==> final(self).valid(),
    {
        if let Some(c) = certs_get(&self.host_cert, host) {
            assert(self.looked_up(*old(self), host@, Loaded::Ok(None), Loaded::Ok(Some(c))));
            return Ok(Some(c));
        }
        let loaded = self.loader.load(host);
        let ghost handed = loaded;
        let result = self.settle(loaded);
        assert(self.looked_up(*old(self), host@, handed, result));
        result
    }

    /// What `get` does for `host`, given what the provider hands back for the
    /// host and for its parent, and the loader `between` the two questions.
    /// The host is looked up first. An error ends the search, and so does a
    /// certificate. Without either the parent is looked up in the same way,
    /// if the host has one. Where that gives no certificate either, the host's
    /// certificate is not found.
    pub open spec fn got(
        self,
        before: Self,
        between: Self,
        host: Seq<char>,
        first: Loaded,
        second: Loaded,
        result: core::result::Result<Arc<Cert>, Error>,
    ) -> bool {
        exists|own: Loaded| #[trigger]
            between.looked_up(before, host, first, own) && match own {
                Err(e) => result == core::result::Result::<Arc<Cert>, Error>::Err(e)
                    && self.same_as(between),
                Ok(Some(c)) => result == core::result::Result::<Arc<Cert>, Error>::Ok(c)
                    && self.same_as(between),
                Ok(None) => match parent_host(host) {
                    None => result matches Err(Error::CertNotFound(h)) && h@ == host
                        && self.same_as(between),
                    Some(parent) => exists|theirs: Loaded| #[trigger]
                        self.looked_up(between, parent, second, theirs) && match theirs {
                            Err(e) => result == core::result::Result::<Arc<Cert>, Error>::Err(e),
                            Ok(Some(c)) => result == core::result::Result::<Arc<Cert>, Error>::Ok(
                                c,
                            ),
                            Ok(None) => result matches Err(Error::CertNotFound(h)) && h@ == host,
                        },
                },
            }
    }

    /// The certificate to serve `host` with: that of the host itself, or else
    /// that of its parent.
    pub fn get(&mut self, host: &str) -> (result: core::result::Result<Arc<Cert>, Error>)
        ensures
            exists|between: Self, first: Loaded, second: Loaded| #[trigger]
                final(self).got(*old(self), between, host@, first, second, result),
            old(self).cached().contains_key(host@) ==> result == core::result::Result::<
                Arc<Cert>,
                Error,
            >::Ok(old(self).cached()[host@]) && final(self).same_as(*old(self)),
            old(self).valid() ==> final(self).valid(),
    {
        let own = self.cert_by_host(host);
        let ghost between = *self;
        let ghost first = choose|loaded: Loaded| #[trigger]
            between.looked_up(*old(self), host@, loaded, own);
        let ghost answer = own;
        match own {
            Err(e) => {
                assert(self.got(*old(self), between, host@, first, first, Err(e)));
                return Err(e);
            },
            Ok(Some(c)) => {
                assert(self.got(*old(self), between, host@, first, first, Ok(c)));
                return Ok(c);
            },
            Ok(None) => {},
        }
        if let Some(parent) = sub_host(host) {
            let theirs = self.cert_by_host(parent.as_str());
            let ghost second = choose|loaded: Loaded| #[trigger]
                self.looked_up(between, parent@, loaded, theirs);
            let result = match theirs {
                Err(e) => Err(e),
                Ok(Some(c)) => Ok(c),
                Ok(None) => Err(Error::CertNotFound(String::from_str(host))),
            };
            assert(self.got(*old(self), between, host@, first, second, result));
            return result;
        }
        let result = Err(Error::CertNotFound(String::from_str(host)));
        assert(self.got(*old(self), between, host@, first, first, result));
        result
    }

    /// Empties the cache of what is about to expire by the system's clock.
    /// Returns the day that it took for today.
    pub fn rm_expired(&mut self, days: i64) -> (today: i64)
        ensures
            today >= 0,
            forall|d: i64|
                #![trigger final(self).expiry().contains_key(d)]
                #![trigger old(self).expiry().contains_key(d)]
                final(self).expiry().contains_key(d) <==> (old(self).expiry().contains_key(d) && d
                    >= today + days),
            forall|d: i64| #[trigger]
                final(self).expiry().contains_key(d) ==> final(self).expiry()[d] == old(
                    self,
                ).expiry()[d],
            forall|h: Seq<char>|
                #![trigger final(self).cached().contains_key(h)]
                #![trigger old(self).cached().contains_key(h)]
                final(self).cached().contains_key(h) <==> (old(self).cached().contains_key(h)
                    && !expiring(old(self).expiry(), today + days, h)),
            forall|h: Seq<char>| #[trigger]
                final(self).cached().contains_key(h) ==> final(self).cached()[h] == old(
                    self,
                ).cached()[h],
            old(self).valid() ==> final(self).valid(),
            old(self).indexed_once() ==> final(self).indexed_once(),
    {
        let today = (now_secs() / 86400) as i64;
        self.rm_expired_at(today, days);
        today
    }

    /// Empties the cache of what is about to expire, taking `today` as the
    /// day it is. Every day of the index before `today + days` goes, with the
    /// certificates cached under the names listed on it; the days from
    /// `today + days` on stay as they are.
    pub fn rm_expired_at(&mut self, today: i64, days: i64)
        ensures
            forall|d: i64|
                #![trigger final(self).expiry().contains_key(d)]
                #![trigger old(self).expiry().contains_key(d)]
                final(self).expiry().contains_key(d) <==> (old(self).expiry().contains_key(d) && d
                    >= today + days),
            forall|d: i64| #[trigger]
                final(self).expiry().contains_key(d) ==> final(self).expiry()[d] == old(
                    self,
                ).expiry()[d],
            forall|h: Seq<char>|
                #![trigger final(self).cached().contains_key(h)]
                #![trigger old(self).cached().contains_key(h)]
                final(self).cached().contains_key(h) <==> (old(self).cached().contains_key(h)
                    && !expiring(old(self).expiry(), today + days, h)),
            forall|h: Seq<char>| #[trigger]
                final(self).cached().contains_key(h) ==> final(self).cached()[h] == old(
                    self,
                ).cached()[h],
            old(self).valid() ==> final(self).valid(),
            old(self).indexed_once() ==> final(self).indexed_once(),
    {
        let bound: i128 = today as i128 + days as i128;
        let gone = sweep(&mut self.host_cert, &self.expire, bound);
        let ghost index = self.expire@;
        let ghost kept = cert_entries(self.host_cert);
        let mut i: usize = 0;
        while i < gone.len()
            invariant
                i <= gone@.len(),
                index == old(self).expire@,
                cert_entries(self.host_cert) == kept,
                forall|d: i64|
                    #![trigger self.expire@.contains_key(d)]
                    #![trigger index.contains_key(d)]
                    self.expire@.contains_key(d) <==> (index.contains_key(d) && !gone@.subrange(
                        0,
                        i as int,
                    ).contains(d)),
                forall|d: i64| #[trigger]
                    self.expire@.contains_key(d) ==> self.expire@[d] == index[d],
            decreases gone@.len() - i,
        {
            let ghost before = self.expire@;
            let ghost done = gone@.subrange(0, i as int);
            let day = gone[i];
            self.expire.remove(&day);
            proof {
                assert(self.expire@ == before.remove(day));
                let next = gone@.subrange(0, i + 1);
                assert(next == done.push(day));
                assert forall|d: i64| self.expire@.contains_key(d) <==> (index.contains_key(d)
                    && !next.contains(d)) by {
                    if next.contains(d) {
                        let k = choose|k: int| 0 <= k < next.len() && next[k] == d;
                        if k < i {
                            assert(done[k] == d);
                        }
                    }
                    if done.contains(d) {
                        let k = choose|k: int| 0 <= k < done.len() && done[k] == d;
                        assert(next[k] == d);
                    }
                    if d == day {
                        assert(next[i as int] == d);
                    }
                }
            }
            i += 1;
        }
        proof {
            assert(gone@.subrange(0, i as int) == gone@);
            if old(self).valid() {
                assert forall|h: Seq<char>| #[trigger]
                    self.cached().contains_key(h) implies entry_ok(
                    h,
                    *self.cached()[h],
                    self.expiry(),
                ) by {
                    assert(old(self).cached().contains_key(h));
                    let cert = *old(self).cached()[h];
                    assert(entry_ok(h, cert, index));
                    let leaf = leaf_of(cert)->0;
                    let d = expiry_day(leaf);
                    if d < bound {
                        assert(index.contains_key(d) && d < bound && listed(index[d]@, h));
                        assert(expiring(index, bound as int, h));
                    }
                    assert(self.expiry().contains_key(d));
                }
            }
            if old(self).indexed_once() {
                assert forall|h: Seq<char>| #[trigger]
                    self.cached().contains_key(h) implies entry_once(
                    h,
                    *self.cached()[h],
                    self.expiry(),
                ) by {
                    assert(old(self).cached().contains_key(h));
                    assert(entry_once(h, *old(self).cached()[h], index));
                }
            }
        }
    }
}

/// A certificate in the cache is cached under the shortest DNS name of its
/// leaf, and the index lists that name under the day on which the leaf
/// expires and under no other day.
pub proof fn lemma_cached_indexed<L: CertLoad>(loader: CertLoader<L>, key: Seq<char>)
    requires
        loader.valid(),
        loader.indexed_once(),
        loader.cached().contains_key(key),
    ensures
        leaf_of(*loader.cached()[key]) is Some,
        cache_key(leaf_of(*loader.cached()[key])->0) == Some(key),
        forall|d: i64|
            #![trigger loader.expiry().contains_key(d)]
            (loader.expiry().contains_key(d) && listed(loader.expiry()[d]@, key)) <==> d
                == expiry_day(leaf_of(*loader.cached()[key])->0),
{
    assert(entry_ok(key, *loader.cached()[key], loader.expiry()));
    assert(entry_once(key, *loader.cached()[key], loader.expiry()));
}

/// A list that grew by one name at its end lists what it listed, and that
/// name.
proof fn lemma_pushed(earlier: Seq<String>, later: Seq<String>, key: Seq<char>)
    requires
        name_views(later) == name_views(earlier).push(key),
    ensures
        forall|h: Seq<char>| listed(later, h) <==> (listed(earlier, h) || h == key),
{
    assert(later.len() == name_views(later).len());
    assert(earlier.len() == name_views(earlier).len());
    assert forall|h: Seq<char>| listed(later, h) <==> (listed(earlier, h) || h == key) by {
        if listed(earlier, h) {
            let k = choose|k: int| 0 <= k < earlier.len() && (#[trigger] earlier[k])@ == h;
            assert(name_views(later)[k] == name_views(earlier)[k]);
            assert(later[k]@ == h);
        }
        if h == key {
            assert(name_views(later)[later.len() - 1] == key);
            assert(later[later.len() - 1]@ == h);
        }
        if listed(later, h) && h != key {
            let k = choose|k: int| 0 <= k < later.len() && (#[trigger] later[k])@ == h;
            assert(name_views(later)[k] == h);
            assert(k < earlier.len());
            assert(name_views(earlier)[k] == h);
            assert(earlier[k]@ == h);
        }
    }
}

/// Taking a certificate in keeps every cached certificate in order, and keeps
/// each name under one day unless the new name stood under another day.
proof fn lemma_took_in<L: CertLoad>(
    before: CertLoader<L>,
    after: CertLoader<L>,
    cert: Arc<Cert>,
    leaf: LeafView,
    key: Seq<char>,
)
    requires
        leaf_of(*cert) == Some(leaf),
        cache_key(leaf) == Some(key),
        after.cached() == before.cached().insert(key, cert),
        index_with(before.expiry(), after.expiry(), expiry_day(leaf), key),
    ensures
        after.took_in(before, cert),
        before.valid() ==> after.valid(),
        before.indexed_once() && !listed_elsewhere(before.expiry(), key, expiry_day(leaf))
            ==> after.indexed_once(),
{
    let day = expiry_day(leaf);
    let old_index = before.expiry();
    let new_index = after.expiry();
    let earlier: Seq<String> = if old_index.contains_key(day) {
        old_index[day]@
    } else {
        Seq::empty()
    };
    assert(name_views(earlier) == (if old_index.contains_key(day) {
        name_views(old_index[day]@)
    } else {
        Seq::empty()
    }));
    lemma_pushed(earlier, new_index[day]@, key);
    if before.valid() {
        assert forall|h: Seq<char>| #[trigger] after.cached().contains_key(h) implies entry_ok(
            h,
            *after.cached()[h],
            new_index,
        ) by {
            if h != key {
                assert(before.cached().contains_key(h));
                let c = *before.cached()[h];
                assert(entry_ok(h, c, old_index));
                let d = expiry_day(leaf_of(c)->0);
                if d != day {
                    assert(new_index.contains_key(d));
                }
            }
        }
    }
    if before.indexed_once() && !listed_elsewhere(old_index, key, day) {
        assert forall|h: Seq<char>| #[trigger] after.cached().contains_key(h) implies entry_once(
            h,
            *after.cached()[h],
            new_index,
        ) by {
            if h != key {
                assert(before.cached().contains_key(h));
                let c = *before.cached()[h];
                assert(entry_once(h, c, old_index));
                if let Some(l) = leaf_of(c) {
                    assert forall|d: i64|
                        #![trigger new_index.contains_key(d)]
                        new_index.contains_key(d) && listed(new_index[d]@, h) implies d
                        == expiry_day(l) by {
                        if d == day {
                            assert(listed(earlier, h));
                            assert(old_index.contains_key(day));
                        } else {
                            assert(old_index.contains_key(d));
                        }
                    }
                }
            } else {
                assert forall|d: i64|
                    #![trigger new_index.contains_key(d)]
                    new_index.contains_key(d) && listed(new_index[d]@, key) implies d == day by {
                    if d != day {
                        assert(old_index.contains_key(d) && d != day && listed(old_index[d]@, key));
                    }
                }
            }
        }
    }
}

/// The first `n` of the index's entries list `host`.
pub open spec fn swept(entries: Seq<(&i64, &Vec<String>)>, n: int, host: Seq<char>) -> bool {
    exists|i: int| 0 <= i < n && listed((#[trigger] entries[i]).1@, host)
}

/// In a list of days in increasing order an earlier day is the smaller one.
proof fn lemma_increasing(days: Seq<i64>)
    requires
        increasing_seq(days),
    ensures
        forall|i: int, j: int| 0 <= i < j < days.len() ==> days[i] < days[j],
{
    assert forall|i: int, j: int| 0 <= i < j < days.len() implies days[i] < days[j] by {
        assert(days[i].cmp_spec(&days[j]) is Less);
    }
}

/// Takes the certificates cached under `hosts` out of the cache.
fn evict(certs: &mut DashMap<String, Arc<Cert>>, hosts: &Vec<String>)
    ensures
        forall|h: Seq<char>|
            #![trigger cert_entries(*final(certs)).contains_key(h)]
            #![trigger cert_entries(*old(certs)).contains_key(h)]
            cert_entries(*final(certs)).contains_key(h) <==> (cert_entries(*old(certs)).contains_key(
                h,
            ) && !listed(hosts@, h)),
        forall|h: Seq<char>| #[trigger]
            cert_entries(*final(certs)).contains_key(h) ==> cert_entries(*final(certs))[h]
                == cert_entries(*old(certs))[h],
{
    let mut j: usize = 0;
    while j < hosts.len()
        invariant
            j <= hosts@.len(),
            forall|h: Seq<char>|
                #![trigger cert_entries(*certs).contains_key(h)]
                #![trigger cert_entries(*old(certs)).contains_key(h)]
                cert_entries(*certs).contains_key(h) <==> (cert_entries(*old(certs)).contains_key(h)
                    && !listed(hosts@.subrange(0, j as int), h)),
            forall|h: Seq<char>| #[trigger]
                cert_entries(*certs).contains_key(h) ==> cert_entries(*certs)[h] == cert_entries(
                    *old(certs),
                )[h],
        decreases hosts@.len() - j,
    {
        let ghost done = hosts@.subrange(0, j as int);
        let ghost next = hosts@.subrange(0, j + 1);
        certs_remove(certs, hosts[j].as_str());
        proof {
            assert forall|h: Seq<char>| listed(next, h) <==> (listed(done, h) || h
                == hosts@[j as int]@) by {
                if listed(done, h) {
                    let k = choose|k: int| 0 <= k < done.len() && (#[trigger] done[k])@ == h;
                    assert(next[k]@ == h);
                }
                if h == hosts@[j as int]@ {
                    assert(next[j as int]@ == h);
                }
                if listed(next, h) {
                    let k = choose|k: int| 0 <= k < next.len() && (#[trigger] next[k])@ == h;
                    if k < j {
                        assert(done[k]@ == h);
                    }
                }
            }
        }
        j += 1;
    }
    assert(hosts@.subrange(0, j as int) == hosts@);
}

/// Walks the index from its first day while the day is before `bound`, takes
/// the certificates of each such day out of the cache, and returns those
/// days.
fn sweep(
    certs: &mut DashMap<String, Arc<Cert>>,
    index: &BTreeMap<i64, Vec<String>>,
    bound: i128,
) -> (gone: Vec<i64>)
    ensures
        forall|d: i64|
            #![trigger gone@.contains(d)]
            #![trigger index@.contains_key(d)]
            gone@.contains(d) <==> (index@.contains_key(d) && d < bound),
        forall|h: Seq<char>|
            #![trigger cert_entries(*final(certs)).contains_key(h)]
            #![trigger cert_entries(*old(certs)).contains_key(h)]
            cert_entries(*final(certs)).contains_key(h) <==> (cert_entries(*old(certs)).contains_key(
                h,
            ) && !expiring(index@, bound as int, h)),
        forall|h: Seq<char>| #[trigger]
            cert_entries(*final(certs)).contains_key(h) ==> cert_entries(*final(certs))[h]
                == cert_entries(*old(certs))[h],
{
    let mut gone: Vec<i64> = Vec::new();
    let ghost s = spec_btree_map_iter(index).remaining();
    let ghost keys = s.map_values(|kv: (&i64, &Vec<String>)| *kv.0);
    let ghost mut n: int = 0;
    let iter = index.iter();
    assert(increasing_seq(keys));
    for kv in it: iter
        invariant_except_break
            n == it.index(),
        invariant
            it.seq() == s,
            0 <= n <= s.len(),
            keys == s.map_values(|kv: (&i64, &Vec<String>)| *kv.0),
            s == spec_btree_map_iter(index).remaining(),
            gone@ == keys.subrange(0, n),
            forall|i: int| 0 <= i < n ==> (#[trigger] keys[i]) < bound,
            forall|h: Seq<char>|
                #![trigger cert_entries(*certs).contains_key(h)]
                #![trigger cert_entries(*old(certs)).contains_key(h)]
                cert_entries(*certs).contains_key(h) <==> (cert_entries(*old(certs)).contains_key(h)
                    && !swept(s, n, h)),
            forall|h: Seq<char>| #[trigger]
                cert_entries(*certs).contains_key(h) ==> cert_entries(*certs)[h] == cert_entries(
                    *old(certs),
                )[h],
        ensures
            n == s.len() || (n < s.len() && keys[n] >= bound),
    {
        let (day, hosts) = kv;
        assert(kv == s[n]);
        assert(keys[n] == *day);
        if (*day as i128) < bound {
            let ghost before = cert_entries(*certs);
            evict(certs, hosts);
            gone.push(*day);
            proof {
                let after = cert_entries(*certs);
                let first = cert_entries(*old(certs));
                assert forall|h: Seq<char>| swept(s, n + 1, h) <==> (swept(s, n, h) || listed(
                    hosts@,
                    h,
                )) by {
                    if swept(s, n, h) {
                        let i = choose|i: int| 0 <= i < n && listed((#[trigger] s[i]).1@, h);
                        assert(0 <= i < n + 1 && listed(s[i].1@, h));
                    }
                    if listed(hosts@, h) {
                        assert(listed(s[n].1@, h));
                    }
                    if swept(s, n + 1, h) {
                        let i = choose|i: int| 0 <= i < n + 1 && listed((#[trigger] s[i]).1@, h);
                        if i < n {
                            assert(swept(s, n, h));
                        }
                    }
                }
                assert forall|h: Seq<char>| after.contains_key(h) <==> (first.contains_key(h)
                    && !swept(s, n + 1, h)) by {
                    assert(after.contains_key(h) <==> (before.contains_key(h) && !listed(
                        hosts@,
                        h,
                    )));
                    assert(before.contains_key(h) <==> (first.contains_key(h) && !swept(s, n, h)));
                }
                assert forall|h: Seq<char>| #[trigger] after.contains_key(h) implies after[h]
                    == first[h] by {
                    assert(before.contains_key(h));
                }
                assert(keys.subrange(0, n + 1) == keys.subrange(0, n).push(*day));
                n = n + 1;
            }
        } else {
            break;
        }
    }
    proof {
        lemma_increasing(keys);
        assert forall|d: i64| gone@.contains(d) <==> (index@.contains_key(d) && d < bound) by {
            if gone@.contains(d) {
                let j = choose|j: int| 0 <= j < gone@.len() && gone@[j] == d;
                assert(keys[j] == d);
                assert(s[j] == s[j]);
                assert(index@.contains_key(*s[j].0));
            }
            if index@.contains_key(d) && d < bound {
                assert(s.contains((&d, &index@[d])));
                let j = choose|j: int| 0 <= j < s.len() && s[j] == (&d, &index@[d]);
                assert(keys[j] == d);
                assert(gone@[j] == d);
            }
        }
        assert forall|h: Seq<char>| swept(s, n, h) <==> expiring(index@, bound as int, h) by {
            if swept(s, n, h) {
                let i = choose|i: int| 0 <= i < n && listed((#[trigger] s[i]).1@, h);
                let d = *s[i].0;
                assert(keys[i] == d);
                assert(index@.contains_key(d) && index@[d] == *s[i].1);
            }
            if expiring(index@, bound as int, h) {
                let d = choose|d: i64| #[trigger]
                    index@.contains_key(d) && d < bound && listed(index@[d]@, h);
                assert(s.contains((&d, &index@[d])));
                let j = choose|j: int| 0 <= j < s.len() && s[j] == (&d, &index@[d]);
                assert(keys[j] == d);
                assert(listed(s[j].1@, h));
            }
        }
    }
    gone
}

} // verus!
