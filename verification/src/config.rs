//! Tenant registry: an immutable mapping from tenant identifier to upstream
//! connection target, built once from configuration and read-only afterwards.

use vstd::prelude::*;
use crate::host::{spec_peer_key, str_eq, peer_key};

verus! {

/// The backend a tenant's traffic is forwarded to.
#[derive(Debug, Clone)]
pub struct UpstreamTarget {
    pub host: String,
    pub port: u16,
}

/// Mathematical model of an upstream target.
pub struct TargetModel {
    pub host: Seq<char>,
    pub port: u16,
}

impl View for UpstreamTarget {
    type V = TargetModel;

    open spec fn view(&self) -> TargetModel {
        TargetModel { host: self.host@, port: self.port }
    }
}

/// A tenant's entry as configuration declares it: just the upstream target.
#[derive(Debug, Clone)]
pub struct AppConfigRaw {
    pub upstream: UpstreamTarget,
}

impl View for AppConfigRaw {
    type V = TargetModel;

    open spec fn view(&self) -> TargetModel {
        self.upstream@
    }
}

/// A tenant's registry entry, carrying its own identifier.
#[derive(Debug, Clone)]
pub struct AppConfig {
    pub name: String,
    pub upstream: UpstreamTarget,
}

/// Mathematical model of a registry entry.
pub struct AppConfigModel {
    pub name: Seq<char>,
    pub upstream: TargetModel,
}

impl View for AppConfig {
    type V = AppConfigModel;

    open spec fn view(&self) -> AppConfigModel {
        AppConfigModel { name: self.name@, upstream: self.upstream@ }
    }
}

impl AppConfig {
    /// Attach the tenant identifier to its raw configuration entry.
    pub fn from_raw(raw: AppConfigRaw, name: String) -> (r: AppConfig)
        ensures
            r.name == name,
            r.upstream == raw.upstream,
    {
        AppConfig { name, upstream: raw.upstream }
    }
}

/// Configuration as the outside world hands it over: tenant entries keyed
/// by identifier, and the list of served domains.
#[derive(Debug, Clone)]
pub struct AppsRaw {
    pub apps: Vec<(String, AppConfigRaw)>,
    pub domains: Vec<String>,
}

/// The registry that a sequence of raw entries builds, inserted in order:
/// a later entry with the same identifier overwrites an earlier one.
pub open spec fn registry_of(entries: Seq<(String, AppConfigRaw)>) -> Map<Seq<char>, AppConfigModel>
    decreases entries.len(),
{
    if entries.len() == 0 {
        Map::empty()
    } else {
        registry_of(entries.drop_last()).insert(
            entries.last().0@,
            AppConfigModel { name: entries.last().0@, upstream: entries.last().1@ },
        )
    }
}

/// The map a sequence of built entries denotes, inserted in order.
pub open spec fn map_of(entries: Seq<(String, AppConfig)>) -> Map<Seq<char>, AppConfigModel>
    decreases entries.len(),
{
    if entries.len() == 0 {
        Map::empty()
    } else {
        map_of(entries.drop_last()).insert(entries.last().0@, entries.last().1@)
    }
}

/// First entry whose identifier equals `id`, scanning front to back.
pub open spec fn spec_lookup(entries: Seq<(String, AppConfig)>, id: Seq<char>) -> Option<
    AppConfigModel,
>
    decreases entries.len(),
{
    if entries.len() == 0 {
        None
    } else if entries.first().0@ == id {
        Some(entries.first().1@)
    } else {
        spec_lookup(entries.drop_first(), id)
    }
}

/// The tenant registry together with the served-domain list.
#[derive(Debug, Clone)]
pub struct Apps {
    pub apps: Vec<(String, AppConfig)>,
    pub domains: Vec<String>,
}

impl Apps {
    /// The registry as a mathematical map from tenant identifier to entry.
    pub open spec fn registry(&self) -> Map<Seq<char>, AppConfigModel> {
        map_of(self.apps@)
    }

    /// Well-formed: tenant identifiers are unique.
    pub open spec fn wf(&self) -> bool {
        forall|i: int, j: int|
            0 <= i < j < self.apps@.len() ==> self.apps@[i].0@ != self.apps@[j].0@
    }

    /// Build the registry from raw configuration, entry by entry in order,
    /// a later duplicate identifier overwriting an earlier one; the served
    /// domains are taken over unchanged.
    pub fn from_raw(data: AppsRaw) -> (r: Apps)
        ensures
            r.wf(),
            r.registry() == registry_of(data.apps@),
            r.domains == data.domains,
    {
        let AppsRaw { apps: mut rest, domains } = data;
        let ghost orig = rest@;
        let mut apps: Vec<(String, AppConfig)> = Vec::new();
        let ghost k: int = 0;
        proof {
            assert(rest@ =~= orig.skip(0));
            assert(orig.take(0) =~= Seq::<(String, AppConfigRaw)>::empty());
        }
        while rest.len() > 0
            invariant
                0 <= k <= orig.len(),
                rest@ =~= orig.skip(k),
                map_of(apps@) == registry_of(orig.take(k)),
                forall|i: int, j: int|
                    0 <= i < j < apps@.len() ==> apps@[i].0@ != apps@[j].0@,
            decreases rest@.len(),
        {
            let ghost apps_old = apps@;
            let (name, config) = rest.remove(0);
            proof {
                assert(orig.skip(k)[0] == orig[k]);
                assert(orig.skip(k).remove(0) =~= orig.skip(k + 1));
            }
            let key = name.clone();
            let entry = AppConfig::from_raw(config, name);
            match find_key(&apps, key.as_str()) {
                Some(i) => {
                    apps[i] = (key, entry);
                    proof {
                        lemma_map_of_update(apps_old, i as int, apps@[i as int]);
                    }
                },
                None => {
                    apps.push((key, entry));
                    proof {
                        assert(apps@.drop_last() =~= apps_old);
                    }
                },
            }
            proof {
                assert(orig.take(k + 1).drop_last() =~= orig.take(k));
                assert(orig.take(k + 1).last() == orig[k]);
                k = k + 1;
            }
        }
        proof {
            assert(orig.take(k) =~= orig);
        }
        Apps { apps, domains }
    }

    /// Look a tenant identifier up in the registry by scanning front to
    /// back; on a well-formed registry this is exactly the map lookup (see
    /// `lemma_lookup_is_map_lookup`).
    pub fn lookup(&self, id: &str) -> (r: Option<&AppConfig>)
        ensures
            match r {
                Some(c) => spec_lookup(self.apps@, id@) == Some(c@),
                None => spec_lookup(self.apps@, id@) is None,
            },
    {
        let mut i: usize = 0;
        proof {
            assert(self.apps@.skip(0) =~= self.apps@);
        }
        while i < self.apps.len()
            invariant
                0 <= i <= self.apps@.len(),
                spec_lookup(self.apps@, id@) == spec_lookup(self.apps@.skip(i as int), id@),
            decreases self.apps@.len() - i,
        {
            let pair: &(String, AppConfig) = &self.apps[i];
            proof {
                assert(self.apps@.skip(i as int).first() == self.apps@[i as int]);
                assert(self.apps@.skip(i as int).drop_first() =~= self.apps@.skip(i as int + 1));
            }
            if str_eq(pair.0.as_str(), id) {
                return Some(&pair.1);
            }
            i += 1;
        }
        None
    }

    /// Compose the hostname grammar with a registry lookup: route a
    /// requested hostname to its tenant and path prefix, failing when the
    /// hostname does not parse or its tenant span is not registered.
    pub fn route(&self, host: &str, hostname: &str) -> (r: Option<RoutingKey>)
        ensures
            match r {
                Some(key) => spec_peer_key(host@, hostname@) matches Some(q) && key.tenant@ == q.0
                    && spec_lookup(self.apps@, q.0) is Some && (match (key.path_prefix, q.1) {
                    (Some(a), Some(b)) => a@ == b,
                    (None, None) => true,
                    _ => false,
                }),
                None => spec_peer_key(host@, hostname@) matches Some(q) ==> spec_lookup(
                    self.apps@,
                    q.0,
                ) is None,
            },
    {
        match peer_key(host, hostname) {
            None => None,
            Some((tenant, path_prefix)) => match self.lookup(tenant.as_str()) {
                None => None,
                Some(_) => Some(RoutingKey { tenant, path_prefix }),
            },
        }
    }
}

/// The routing key handed to the transport engine for one connection.
#[derive(Debug, Clone)]
pub struct RoutingKey {
    pub tenant: String,
    pub path_prefix: Option<String>,
}

/// Index of the first entry whose identifier equals `name`, if any.
fn find_key(apps: &Vec<(String, AppConfig)>, name: &str) -> (r: Option<usize>)
    ensures
        match r {
            Some(i) => i < apps@.len() && apps@[i as int].0@ == name@,
            None => forall|j: int| 0 <= j < apps@.len() ==> apps@[j].0@ != name@,
        },
{
    let mut i: usize = 0;
    while i < apps.len()
        invariant
            0 <= i <= apps@.len(),
            forall|j: int| 0 <= j < i ==> apps@[j].0@ != name@,
        decreases apps@.len() - i,
    {
        let pair: &(String, AppConfig) = &apps[i];
        if str_eq(pair.0.as_str(), name) {
            return Some(i);
        }
        i += 1;
    }
    None
}

/// Overwriting the entry that already carries a key denotes the same map
/// as inserting that key, provided keys are unique.
proof fn lemma_map_of_update(entries: Seq<(String, AppConfig)>, i: int, x: (String, AppConfig))
    requires
        0 <= i < entries.len(),
        entries[i].0@ == x.0@,
        forall|a: int, b: int| 0 <= a < b < entries.len() ==> entries[a].0@ != entries[b].0@,
    ensures
        map_of(entries.update(i, x)) == map_of(entries).insert(x.0@, x.1@),
    decreases entries.len(),
{
    let u = entries.update(i, x);
    if i == entries.len() - 1 {
        assert(u.drop_last() =~= entries.drop_last());
        assert(u.last() == x);
        assert(map_of(entries.drop_last()).insert(entries.last().0@, entries.last().1@).insert(
            x.0@,
            x.1@,
        ) =~= map_of(entries.drop_last()).insert(x.0@, x.1@));
    } else {
        assert(u.drop_last() =~= entries.drop_last().update(i, x));
        assert(u.last() == entries.last());
        assert(entries.drop_last()[i] == entries[i]);
        lemma_map_of_update(entries.drop_last(), i, x);
        assert(entries.last().0@ != x.0@);
        assert(map_of(entries.drop_last()).insert(x.0@, x.1@).insert(
            entries.last().0@,
            entries.last().1@,
        ) =~= map_of(entries.drop_last()).insert(entries.last().0@, entries.last().1@).insert(
            x.0@,
            x.1@,
        ));
    }
}

/// A scan misses exactly when no entry carries the identifier.
pub proof fn lemma_lookup_none_iff(entries: Seq<(String, AppConfig)>, id: Seq<char>)
    ensures
        spec_lookup(entries, id) is None <==> forall|j: int|
            0 <= j < entries.len() ==> entries[j].0@ != id,
    decreases entries.len(),
{
    if entries.len() == 0 {
    } else {
        lemma_lookup_none_iff(entries.drop_first(), id);
        assert(entries.first() == entries[0]);
        if entries.first().0@ == id {
            assert(entries[0].0@ == id);
        } else if spec_lookup(entries, id) is None {
            assert forall|j: int| 0 <= j < entries.len() implies entries[j].0@ != id by {
                if j > 0 {
                    assert(entries.drop_first()[j - 1] == entries[j]);
                }
            }
        } else {
            let j = choose|j: int|
                !(0 <= j < entries.drop_first().len() ==> entries.drop_first()[j].0@ != id);
            assert(entries[j + 1].0@ == id);
        }
    }
}

/// Appending one entry changes a scan's answer only where the scan missed.
proof fn lemma_lookup_push(entries: Seq<(String, AppConfig)>, x: (String, AppConfig), id: Seq<char>)
    ensures
        spec_lookup(entries.push(x), id) == (if spec_lookup(entries, id) is Some {
            spec_lookup(entries, id)
        } else if x.0@ == id {
            Some(x.1@)
        } else {
            None::<AppConfigModel>
        }),
    decreases entries.len(),
{
    if entries.len() == 0 {
        assert(entries.push(x).first() == x);
        assert(entries.push(x).drop_first() =~= Seq::<(String, AppConfig)>::empty());
        assert(spec_lookup(Seq::<(String, AppConfig)>::empty(), id) is None);
    } else {
        assert(entries.push(x).first() == entries.first());
        assert(entries.push(x).drop_first() =~= entries.drop_first().push(x));
        lemma_lookup_push(entries.drop_first(), x, id);
        if entries.first().0@ == id {
            assert(spec_lookup(entries.push(x), id) == Some(entries.first().1@));
        } else {
            assert(spec_lookup(entries.push(x), id) == spec_lookup(
                entries.drop_first().push(x),
                id,
            ));
            assert(spec_lookup(entries, id) == spec_lookup(entries.drop_first(), id));
        }
    }
}

/// On a registry with unique identifiers, the front-to-back scan agrees
/// with lookup in the registry's map denotation.
pub proof fn lemma_lookup_is_map_lookup(entries: Seq<(String, AppConfig)>, id: Seq<char>)
    requires
        forall|a: int, b: int| 0 <= a < b < entries.len() ==> entries[a].0@ != entries[b].0@,
    ensures
        match spec_lookup(entries, id) {
            Some(c) => map_of(entries).contains_key(id) && map_of(entries)[id] == c,
            None => !map_of(entries).contains_key(id),
        },
    decreases entries.len(),
{
    if entries.len() == 0 {
        assert(!map_of(entries).contains_key(id));
    } else {
        let front = entries.drop_last();
        let x = entries.last();
        assert(forall|a: int, b: int| 0 <= a < b < front.len() ==> front[a].0@ != front[b].0@);
        lemma_lookup_is_map_lookup(front, id);
        assert(entries =~= front.push(x));
        lemma_lookup_push(front, x, id);
        if x.0@ == id {
            assert(forall|j: int| 0 <= j < front.len() ==> front[j] == entries[j]);
            assert(forall|j: int| 0 <= j < front.len() ==> front[j].0@ != id);
            lemma_lookup_none_iff(front, id);
        }
    }
}

} // verus!
