//! The gateway's shared state: the routing table, the application table,
//! and the boot configuration cell. In the running process each is a
//! process-wide singleton behind a lock; the logic here is its value.

use vstd::prelude::*;
use crate::config::GatewayConfig;
use crate::lb::GatewayLoadBalancer;
use crate::rate_limit::RateLimiter;
use crate::text::str_eq;

verus! {

/// The first position of `target` in `names`, or `-1` when absent.
pub open spec fn first_index_of(names: Seq<Seq<char>>, target: Seq<char>) -> int
    decreases names.len(),
{
    if names.len() == 0 {
        -1
    } else if names[0] == target {
        0
    } else {
        let rest = first_index_of(names.drop_first(), target);
        if rest == -1 {
            -1
        } else {
            rest + 1
        }
    }
}

/// What `first_index_of` means position by position.
pub proof fn lemma_first_index_of(names: Seq<Seq<char>>, target: Seq<char>)
    ensures
        first_index_of(names, target) == -1 ==> forall|j: int|
            0 <= j < names.len() ==> names[j] != target,
        first_index_of(names, target) != -1 ==> {
            &&& 0 <= first_index_of(names, target) < names.len()
            &&& names[first_index_of(names, target)] == target
            &&& forall|j: int| 0 <= j < first_index_of(names, target) ==> names[j] != target
        },
    decreases names.len(),
{
    if names.len() > 0 && names[0] != target {
        lemma_first_index_of(names.drop_first(), target);
        let rest = first_index_of(names.drop_first(), target);
        if rest == -1 {
            assert forall|j: int| 0 <= j < names.len() implies names[j] != target by {
                if j > 0 {
                    assert(names.drop_first()[j - 1] == names[j]);
                }
            }
        } else {
            assert(names.drop_first()[rest] == names[rest + 1]);
            assert forall|j: int| 0 <= j < rest + 1 implies names[j] != target by {
                if j > 0 {
                    assert(names.drop_first()[j - 1] == names[j]);
                }
            }
        }
    }
}

/// One tenant of the gateway, owning exactly one rate limiter.
pub struct GatewayApplication {
    rate_limiter: RateLimiter,
}

impl GatewayApplication {
    /// The tenant's configured request limit per interval.
    pub closed spec fn spec_limit(&self) -> int {
        self.rate_limiter.spec_limit()
    }

    pub fn new(rate_limiter: RateLimiter) -> (r: Self)
        ensures
            r.spec_limit() == rate_limiter.spec_limit(),
    {
        GatewayApplication { rate_limiter }
    }

    pub fn rate_limiter(&self) -> (r: &RateLimiter)
        ensures
            r.spec_limit() == self.spec_limit(),
    {
        &self.rate_limiter
    }
}

/// The application table: tenants keyed by their unique id.
pub struct AppTable {
    pub apps: Vec<(String, GatewayApplication)>,
}

impl AppTable {
    /// The tenant ids, in insertion order.
    pub open spec fn ids(&self) -> Seq<Seq<char>> {
        self.apps@.map_values(|p: (String, GatewayApplication)| p.0@)
    }

    /// Every tenant id occurs once.
    pub open spec fn wf(&self) -> bool {
        forall|i: int, j: int|
            0 <= i < j < self.ids().len() ==> self.ids()[i] != self.ids()[j]
    }

    pub open spec fn contains_id(&self, id: Seq<char>) -> bool {
        first_index_of(self.ids(), id) != -1
    }

    /// The configured limit of a registered tenant.
    pub open spec fn limit_of(&self, id: Seq<char>) -> int {
        self.apps@[first_index_of(self.ids(), id)].1.spec_limit()
    }

    pub fn new() -> (r: AppTable)
        ensures
            r.wf(),
            r.apps@.len() == 0,
    {
        AppTable { apps: Vec::new() }
    }

    /// The position of a tenant id in the table.
    pub fn find(&self, id: &str) -> (r: Option<usize>)
        ensures
            match r {
                Some(i) => i as int == first_index_of(self.ids(), id@) && i < self.apps@.len(),
                None => first_index_of(self.ids(), id@) == -1,
            },
    {
        let n = self.apps.len();
        let mut i: usize = 0;
        proof {
            lemma_first_index_of(self.ids(), id@);
        }
        while i < n
            invariant
                n == self.apps@.len(),
                i <= n,
                forall|j: int| 0 <= j < i ==> self.ids()[j] != id@,
                first_index_of(self.ids(), id@) != -1 ==> {
                    &&& 0 <= first_index_of(self.ids(), id@) < n
                    &&& self.ids()[first_index_of(self.ids(), id@)] == id@
                    &&& forall|j: int|
                        0 <= j < first_index_of(self.ids(), id@) ==> self.ids()[j] != id@
                },
                first_index_of(self.ids(), id@) == -1 ==> forall|j: int|
                    0 <= j < n ==> self.ids()[j] != id@,
            decreases n - i,
        {
            if str_eq(self.apps[i].0.as_str(), id) {
                proof {
                    assert(self.ids()[i as int] == self.apps@[i as int].0@);
                }
                return Some(i);
            }
            i = i + 1;
        }
        None
    }

    /// A shared borrow of a registered tenant.
    pub fn get(&self, id: &str) -> (r: Option<&GatewayApplication>)
        ensures
            r is Some <==> self.contains_id(id@),
            r matches Some(app) ==> app.spec_limit() == self.limit_of(id@),
    {
        match self.find(id) {
            Some(i) => Some(&self.apps[i].1),
            None => None,
        }
    }

    /// Installs a tenant, replacing a previous tenant of the same id.
    pub fn insert(&mut self, id: String, app: GatewayApplication)
        requires
            old(self).wf(),
        ensures
            final(self).wf(),
            final(self).contains_id(id@),
            first_index_of(old(self).ids(), id@) == -1 ==> final(self).apps@ == old(
                self,
            ).apps@.push((id, app)),
            first_index_of(old(self).ids(), id@) != -1 ==> final(self).apps@ == old(
                self,
            ).apps@.update(first_index_of(old(self).ids(), id@), (id, app)),
    {
        proof {
            lemma_first_index_of(self.ids(), id@);
        }
        let ghost pre = *self;
        let ghost idv = id@;
        match self.find(id.as_str()) {
            Some(i) => {
                let slot = &mut self.apps[i];
                *slot = (id, app);
                proof {
                    assert(pre.ids()[i as int] == idv);
                    assert forall|j: int| 0 <= j < pre.ids().len() implies self.ids()[j]
                        == pre.ids()[j] by {
                        if j != i {
                            assert(self.apps@[j] == pre.apps@[j]);
                        } else {
                            assert(self.apps@[j].0@ == idv);
                        }
                    }
                    assert(self.ids() =~= pre.ids());
                }
            },
            None => {
                self.apps.push((id, app));
                proof {
                    assert forall|j: int| 0 <= j < pre.ids().len() implies self.ids()[j]
                        == pre.ids()[j] by {
                        assert(self.apps@[j] == pre.apps@[j]);
                    }
                    assert(self.ids()[pre.ids().len() as int] == idv);
                    lemma_first_index_of(self.ids(), idv);
                    if !self.contains_id(idv) {
                        assert(self.ids()[pre.ids().len() as int] != idv);
                    }
                    assert forall|a: int, b: int|
                        0 <= a < b < self.ids().len() implies self.ids()[a] != self.ids()[b] by {
                        if b < pre.ids().len() {
                            assert(self.ids()[a] == pre.ids()[a]);
                            assert(self.ids()[b] == pre.ids()[b]);
                        } else {
                            assert(self.ids()[a] == pre.ids()[a]);
                            assert(pre.ids()[a] != idv);
                        }
                    }
                }
            },
        }
    }

    /// Removes a tenant; unknown ids are a no-op.
    pub fn remove(&mut self, id: &str)
        requires
            old(self).wf(),
        ensures
            final(self).wf(),
            !final(self).contains_id(id@),
            first_index_of(old(self).ids(), id@) == -1 ==> *final(self) == *old(self),
            first_index_of(old(self).ids(), id@) != -1 ==> final(self).apps@ == old(
                self,
            ).apps@.remove(first_index_of(old(self).ids(), id@)),
    {
        proof {
            lemma_first_index_of(self.ids(), id@);
        }
        let ghost pre = *self;
        match self.find(id) {
            Some(i) => {
                self.apps.remove(i);
                proof {
                    assert forall|j: int| 0 <= j < self.ids().len() implies self.ids()[j] == (
                    if j < i {
                        pre.ids()[j]
                    } else {
                        pre.ids()[j + 1]
                    }) by {
                        if j < i {
                            assert(self.apps@[j] == pre.apps@[j]);
                        } else {
                            assert(self.apps@[j] == pre.apps@[j + 1]);
                        }
                    }
                    lemma_first_index_of(self.ids(), id@);
                    if self.contains_id(id@) {
                        let k = first_index_of(self.ids(), id@);
                        assert(self.ids()[k] == id@);
                        if k < i {
                            assert(pre.ids()[k] == id@);
                        } else {
                            assert(pre.ids()[k + 1] == id@);
                            assert(pre.ids()[i as int] == id@);
                        }
                        assert(false);
                    }
                    assert forall|a: int, b: int|
                        0 <= a < b < self.ids().len() implies self.ids()[a] != self.ids()[b] by {
                        let pa = if a < i {
                            a
                        } else {
                            a + 1
                        };
                        let pb = if b < i {
                            b
                        } else {
                            b + 1
                        };
                        assert(self.ids()[a] == pre.ids()[pa]);
                        assert(self.ids()[b] == pre.ids()[pb]);
                    }
                }
            },
            None => {},
        }
    }
}

/// The routing table: named load balancers, matched in insertion order.
pub struct RoutingTable {
    pub routes: Vec<(String, GatewayLoadBalancer)>,
}

/// The first route in the table whose match rule claims `path`.
pub open spec fn first_match(
    rs: Seq<(String, GatewayLoadBalancer)>,
    path: Seq<char>,
) -> Option<int>
    decreases rs.len(),
{
    if rs.len() == 0 {
        None
    } else if rs[0].1.match_rule.spec_matches(path) {
        Some(0)
    } else {
        match first_match(rs.drop_first(), path) {
            Some(i) => Some(i + 1),
            None => None,
        }
    }
}

/// What `first_match` means position by position.
pub proof fn lemma_first_match(rs: Seq<(String, GatewayLoadBalancer)>, path: Seq<char>)
    ensures
        first_match(rs, path) is None ==> forall|j: int|
            0 <= j < rs.len() ==> !(#[trigger] rs[j]).1.match_rule.spec_matches(path),
        first_match(rs, path) matches Some(i) ==> {
            &&& 0 <= i < rs.len()
            &&& rs[i].1.match_rule.spec_matches(path)
            &&& forall|j: int| 0 <= j < i ==> !(#[trigger] rs[j]).1.match_rule.spec_matches(path)
        },
    decreases rs.len(),
{
    if rs.len() > 0 && !rs[0].1.match_rule.spec_matches(path) {
        lemma_first_match(rs.drop_first(), path);
        match first_match(rs.drop_first(), path) {
            None => {
                assert forall|j: int| 0 <= j < rs.len() implies !(
                #[trigger] rs[j]).1.match_rule.spec_matches(path) by {
                    if j > 0 {
                        assert(rs.drop_first()[j - 1] == rs[j]);
                    }
                }
            },
            Some(i) => {
                assert(rs.drop_first()[i] == rs[i + 1]);
                assert forall|j: int| 0 <= j < i + 1 implies !(
                #[trigger] rs[j]).1.match_rule.spec_matches(path) by {
                    if j > 0 {
                        assert(rs.drop_first()[j - 1] == rs[j]);
                    }
                }
            },
        }
    }
}

impl RoutingTable {
    /// The route names, in insertion order.
    pub open spec fn names(&self) -> Seq<Seq<char>> {
        self.routes@.map_values(|p: (String, GatewayLoadBalancer)| p.0@)
    }

    /// Route names are unique and every load balancer is well formed.
    pub open spec fn wf(&self) -> bool {
        &&& forall|i: int, j: int|
            0 <= i < j < self.names().len() ==> self.names()[i] != self.names()[j]
        &&& forall|i: int| 0 <= i < self.routes@.len() ==> (#[trigger] self.routes@[i]).1.wf()
    }

    pub open spec fn contains_route(&self, name: Seq<char>) -> bool {
        first_index_of(self.names(), name) != -1
    }

    pub fn new() -> (r: RoutingTable)
        ensures
            r.wf(),
            r.routes@.len() == 0,
    {
        RoutingTable { routes: Vec::new() }
    }

    /// The position of a route name in the table.
    pub fn find_name(&self, name: &str) -> (r: Option<usize>)
        ensures
            match r {
                Some(i) => i as int == first_index_of(self.names(), name@) && i
                    < self.routes@.len(),
                None => first_index_of(self.names(), name@) == -1,
            },
    {
        let n = self.routes.len();
        let mut i: usize = 0;
        proof {
            lemma_first_index_of(self.names(), name@);
        }
        while i < n
            invariant
                n == self.routes@.len(),
                i <= n,
                forall|j: int| 0 <= j < i ==> self.names()[j] != name@,
                first_index_of(self.names(), name@) != -1 ==> {
                    &&& 0 <= first_index_of(self.names(), name@) < n
                    &&& self.names()[first_index_of(self.names(), name@)] == name@
                    &&& forall|j: int|
                        0 <= j < first_index_of(self.names(), name@) ==> self.names()[j] != name@
                },
                first_index_of(self.names(), name@) == -1 ==> forall|j: int|
                    0 <= j < n ==> self.names()[j] != name@,
            decreases n - i,
        {
            if str_eq(self.routes[i].0.as_str(), name) {
                proof {
                    assert(self.names()[i as int] == self.routes@[i as int].0@);
                }
                return Some(i);
            }
            i = i + 1;
        }
        None
    }

    /// Installs a route, replacing a previous route of the same name.
    pub fn insert(&mut self, name: String, lb: GatewayLoadBalancer)
        requires
            old(self).wf(),
            lb.wf(),
        ensures
            final(self).wf(),
            final(self).contains_route(name@),
            first_index_of(old(self).names(), name@) == -1 ==> final(self).routes@ == old(
                self,
            ).routes@.push((name, lb)),
            first_index_of(old(self).names(), name@) != -1 ==> final(self).routes@ == old(
                self,
            ).routes@.update(first_index_of(old(self).names(), name@), (name, lb)),
    {
        proof {
            lemma_first_index_of(self.names(), name@);
        }
        let ghost pre = *self;
        let ghost namev = name@;
        match self.find_name(name.as_str()) {
            Some(i) => {
                let slot = &mut self.routes[i];
                *slot = (name, lb);
                proof {
                    assert(pre.names()[i as int] == namev);
                    assert forall|j: int| 0 <= j < pre.names().len() implies self.names()[j]
                        == pre.names()[j] by {
                        if j != i {
                            assert(self.routes@[j] == pre.routes@[j]);
                        } else {
                            assert(self.routes@[j].0@ == namev);
                        }
                    }
                    assert(self.names() =~= pre.names());
                    assert forall|j: int| 0 <= j < self.routes@.len() implies (
                    #[trigger] self.routes@[j]).1.wf() by {
                        if j != i {
                            assert(self.routes@[j] == pre.routes@[j]);
                        }
                    }
                }
            },
            None => {
                self.routes.push((name, lb));
                proof {
                    assert forall|j: int| 0 <= j < pre.names().len() implies self.names()[j]
                        == pre.names()[j] by {
                        assert(self.routes@[j] == pre.routes@[j]);
                    }
                    assert(self.names()[pre.names().len() as int] == namev);
                    lemma_first_index_of(self.names(), namev);
                    if !self.contains_route(namev) {
                        assert(self.names()[pre.names().len() as int] != namev);
                    }
                    assert forall|a: int, b: int|
                        0 <= a < b < self.names().len() implies self.names()[a] != self.names()[b]
                        by {
                        if b < pre.names().len() {
                            assert(self.names()[a] == pre.names()[a]);
                            assert(self.names()[b] == pre.names()[b]);
                        } else {
                            assert(self.names()[a] == pre.names()[a]);
                            assert(pre.names()[a] != namev);
                        }
                    }
                    assert forall|j: int| 0 <= j < self.routes@.len() implies (
                    #[trigger] self.routes@[j]).1.wf() by {
                        if j < pre.routes@.len() {
                            assert(self.routes@[j] == pre.routes@[j]);
                        }
                    }
                }
            },
        }
    }

    /// Deletes a route; an unknown name is a no-op. Afterwards no route of
    /// that name is left, so no request can match it again.
    pub fn remove(&mut self, name: &str)
        requires
            old(self).wf(),
        ensures
            final(self).wf(),
            !final(self).contains_route(name@),
            first_index_of(old(self).names(), name@) == -1 ==> *final(self) == *old(self),
            first_index_of(old(self).names(), name@) != -1 ==> final(self).routes@ == old(
                self,
            ).routes@.remove(first_index_of(old(self).names(), name@)),
    {
        proof {
            lemma_first_index_of(self.names(), name@);
        }
        let ghost pre = *self;
        match self.find_name(name) {
            Some(i) => {
                self.routes.remove(i);
                proof {
                    assert forall|j: int| 0 <= j < self.names().len() implies self.names()[j] == (
                    if j < i {
                        pre.names()[j]
                    } else {
                        pre.names()[j + 1]
                    }) by {
                        if j < i {
                            assert(self.routes@[j] == pre.routes@[j]);
                        } else {
                            assert(self.routes@[j] == pre.routes@[j + 1]);
                        }
                    }
                    lemma_first_index_of(self.names(), name@);
                    if self.contains_route(name@) {
                        let k = first_index_of(self.names(), name@);
                        assert(self.names()[k] == name@);
                        if k < i {
                            assert(pre.names()[k] == name@);
                        } else {
                            assert(pre.names()[k + 1] == name@);
                            assert(pre.names()[i as int] == name@);
                        }
                        assert(false);
                    }
                    assert forall|a: int, b: int|
                        0 <= a < b < self.names().len() implies self.names()[a] != self.names()[b]
                        by {
                        let pa = if a < i {
                            a
                        } else {
                            a + 1
                        };
                        let pb = if b < i {
                            b
                        } else {
                            b + 1
                        };
                        assert(self.names()[a] == pre.names()[pa]);
                        assert(self.names()[b] == pre.names()[pb]);
                    }
                    assert forall|j: int| 0 <= j < self.routes@.len() implies (
                    #[trigger] self.routes@[j]).1.wf() by {
                        if j < i {
                            assert(self.routes@[j] == pre.routes@[j]);
                        } else {
                            assert(self.routes@[j] == pre.routes@[j + 1]);
                        }
                    }
                }
            },
            None => {},
        }
    }

    /// The first route matching a request path, scanning in table order.
    pub fn find_match(&self, path: &str) -> (r: Option<usize>)
        ensures
            (match r {
                Some(i) => Some(i as int),
                None => None::<int>,
            }) == first_match(self.routes@, path@),
            r matches Some(i) ==> i < self.routes@.len(),
    {
        let n = self.routes.len();
        let mut i: usize = 0;
        proof {
            lemma_first_match(self.routes@, path@);
        }
        while i < n
            invariant
                n == self.routes@.len(),
                i <= n,
                forall|j: int|
                    0 <= j < i ==> !(#[trigger] self.routes@[j]).1.match_rule.spec_matches(path@),
                first_match(self.routes@, path@) matches Some(k) ==> {
                    &&& 0 <= k < n
                    &&& self.routes@[k].1.match_rule.spec_matches(path@)
                    &&& forall|j: int|
                        0 <= j < k ==> !(#[trigger] self.routes@[j]).1.match_rule.spec_matches(
                            path@,
                        )
                },
                first_match(self.routes@, path@) is None ==> forall|j: int|
                    0 <= j < n ==> !(#[trigger] self.routes@[j]).1.match_rule.spec_matches(path@),
            decreases n - i,
        {
            if self.routes[i].1.matches_path(path) {
                return Some(i);
            }
            i = i + 1;
        }
        None
    }
}

/// Once a route of a given name is gone from the table, no request matches
/// it: whatever route the dispatcher picks bears another name.
pub proof fn lemma_absent_route_never_matched(
    routes: RoutingTable,
    name: Seq<char>,
    path: Seq<char>,
)
    requires
        !routes.contains_route(name),
    ensures
        first_match(routes.routes@, path) matches Some(i) ==> routes.routes@[i].0@ != name,
{
    lemma_first_match(routes.routes@, path);
    lemma_first_index_of(routes.names(), name);
    match first_match(routes.routes@, path) {
        Some(i) => {
            assert(routes.names()[i] == routes.routes@[i].0@);
        },
        None => {},
    }
}

/// Installing a fresh route and then removing it returns the routing table
/// to its prior state.
pub proof fn lemma_add_then_remove_restores(
    pre: RoutingTable,
    mid: RoutingTable,
    post: RoutingTable,
    entry: (String, GatewayLoadBalancer),
)
    requires
        pre.wf(),
        !pre.contains_route(entry.0@),
        mid.routes@ == pre.routes@.push(entry),
        first_index_of(mid.names(), entry.0@) != -1 ==> post.routes@ == mid.routes@.remove(
            first_index_of(mid.names(), entry.0@),
        ),
        first_index_of(mid.names(), entry.0@) == -1 ==> post.routes@ == mid.routes@,
    ensures
        post.routes@ == pre.routes@,
{
    let n = entry.0@;
    lemma_first_index_of(pre.names(), n);
    assert forall|j: int| 0 <= j < pre.names().len() implies mid.names()[j] == pre.names()[j] by {
        assert(mid.routes@[j] == pre.routes@[j]);
    }
    assert(mid.names()[pre.names().len() as int] == n);
    lemma_first_index_of(mid.names(), n);
    let k = first_index_of(mid.names(), n);
    if k == -1 {
        assert(mid.names()[pre.names().len() as int] != n);
    }
    assert(mid.names()[k] == n);
    if k < pre.names().len() {
        assert(pre.names()[k] == n);
    }
    assert(k == pre.names().len());
    mid.routes@.remove_ensures(k);
    assert(post.routes@ =~= pre.routes@);
}

/// The boot configuration cell: written exactly once during boot, read
/// afterwards.
pub struct ConfigStore {
    pub stored: Option<GatewayConfig>,
}

impl ConfigStore {
    pub fn new() -> (r: ConfigStore)
        ensures
            r.stored is None,
    {
        ConfigStore { stored: None }
    }
}

/// Installs the boot configuration; it may be set only once.
pub fn init_config(store: &mut ConfigStore, config: GatewayConfig)
    requires
        old(store).stored is None,
    ensures
        final(store).stored == Some(config),
{
    store.stored = Some(config);
}

/// The boot configuration; it must have been initialized.
pub fn config(store: &ConfigStore) -> (r: &GatewayConfig)
    requires
        store.stored is Some,
    ensures
        store.stored == Some(*r),
{
    match &store.stored {
        Some(c) => c,
        None => vstd::pervasive::unreached(),
    }
}

} // verus!
