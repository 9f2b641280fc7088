//! The background-service supervisor and the route manager: two
//! command-driven state machines. The supervisor owns the set of running
//! task keys; the route manager installs and retires load balancers and
//! keeps exactly one `<name>_hc` supervisor task per route.

use vstd::prelude::*;
use crate::consts::DOCKER_BACKGROUND_SERVICE_NAME;
use crate::lb::GatewayLoadBalancer;
use crate::lb::GatewayLoadBalancerOptions;
use crate::store::RoutingTable;
use crate::store::first_index_of;
use crate::store::lemma_first_index_of;
use crate::text::str_eq;
use vstd::string::StringExecFns;

verus! {

/// What the runtime around the supervisor must do after a command: stop the
/// task under a key, or start the task registered under a key.
pub enum ServiceAction {
    Cancel(String),
    Spawn(String),
}

/// The mathematical value of an action.
pub enum ServiceActionModel {
    Cancel(Seq<char>),
    Spawn(Seq<char>),
}

impl View for ServiceAction {
    type V = ServiceActionModel;

    open spec fn view(&self) -> ServiceActionModel {
        match self {
            ServiceAction::Cancel(k) => ServiceActionModel::Cancel(k@),
            ServiceAction::Spawn(k) => ServiceActionModel::Spawn(k@),
        }
    }
}

/// A supervisor command: register a task under a key, or retire the task
/// under a key. In the running process `Add` also carries the task itself;
/// here the key stands for it, and the returned actions tell the runtime
/// what to spawn or cancel.
pub enum GlobalBackgroundCmd {
    Add(String),
    Remove(String),
}

/// The supervisor: the keys of the background tasks currently running,
/// each key held exactly once.
pub struct GlobalBackgroundService {
    pub services: Vec<String>,
}

impl GlobalBackgroundService {
    /// The registered keys, in registration order.
    pub open spec fn keys(&self) -> Seq<Seq<char>> {
        self.services@.map_values(|s: String| s@)
    }

    /// The registered keys as a set.
    pub open spec fn key_set(&self) -> Set<Seq<char>> {
        Set::new(|k: Seq<char>| self.keys().contains(k))
    }

    /// Exactly one task per registered key.
    pub open spec fn wf(&self) -> bool {
        forall|i: int, j: int|
            0 <= i < j < self.keys().len() ==> self.keys()[i] != self.keys()[j]
    }

    pub fn new() -> (r: GlobalBackgroundService)
        ensures
            r.wf(),
            r.services@.len() == 0,
    {
        GlobalBackgroundService { services: Vec::new() }
    }

    /// The position of a key, when registered.
    fn find_key(&self, key: &str) -> (r: Option<usize>)
        ensures
            match r {
                Some(i) => i as int == first_index_of(self.keys(), key@) && i
                    < self.services@.len(),
                None => first_index_of(self.keys(), key@) == -1,
            },
    {
        let n = self.services.len();
        let mut i: usize = 0;
        proof {
            lemma_first_index_of(self.keys(), key@);
        }
        while i < n
            invariant
                n == self.services@.len(),
                i <= n,
                forall|j: int| 0 <= j < i ==> self.keys()[j] != key@,
                first_index_of(self.keys(), key@) != -1 ==> {
                    &&& 0 <= first_index_of(self.keys(), key@) < n
                    &&& self.keys()[first_index_of(self.keys(), key@)] == key@
                    &&& forall|j: int|
                        0 <= j < first_index_of(self.keys(), key@) ==> self.keys()[j] != key@
                },
                first_index_of(self.keys(), key@) == -1 ==> forall|j: int|
                    0 <= j < n ==> self.keys()[j] != key@,
            decreases n - i,
        {
            if str_eq(self.services[i].as_str(), key) {
                proof {
                    assert(self.keys()[i as int] == self.services@[i as int]@);
                }
                return Some(i);
            }
            i = i + 1;
        }
        None
    }

    /// Processes one supervisor command. Registering an occupied key
    /// supersedes the old task: it is cancelled before the new task is
    /// spawned, so no task is orphaned. Removing an unknown key is a no-op.
    pub fn apply_cmd(&mut self, cmd: GlobalBackgroundCmd) -> (actions: Vec<ServiceAction>)
        requires
            old(self).wf(),
        ensures
            final(self).wf(),
            cmd matches GlobalBackgroundCmd::Add(key) ==> {
                &&& final(self).keys().contains(key@)
                &&& (first_index_of(old(self).keys(), key@) == -1 ==> final(self).keys() == old(
                    self,
                ).keys().push(key@) && actions@.map_values(|a: ServiceAction| a@) == seq![
                    ServiceActionModel::Spawn(key@),
                ])
                &&& (first_index_of(old(self).keys(), key@) != -1 ==> final(self).keys() == old(
                    self,
                ).keys() && actions@.map_values(|a: ServiceAction| a@) == seq![
                    ServiceActionModel::Cancel(key@),
                    ServiceActionModel::Spawn(key@),
                ])
            },
            cmd matches GlobalBackgroundCmd::Remove(key) ==> {
                &&& !final(self).keys().contains(key@)
                &&& (first_index_of(old(self).keys(), key@) == -1 ==> *final(self) == *old(self)
                    && actions@.len() == 0)
                &&& (first_index_of(old(self).keys(), key@) != -1 ==> final(self).keys() == old(
                    self,
                ).keys().remove(first_index_of(old(self).keys(), key@)) && actions@.map_values(
                    |a: ServiceAction| a@,
                ) == seq![ServiceActionModel::Cancel(key@)])
            },
    {
        let ghost pre = *self;
        match cmd {
            GlobalBackgroundCmd::Add(key) => {
                let mut actions: Vec<ServiceAction> = Vec::new();
                match self.find_key(key.as_str()) {
                    Some(_) => {
                        actions.push(ServiceAction::Cancel(key.clone()));
                        actions.push(ServiceAction::Spawn(key));
                        proof {
                            lemma_first_index_of(pre.keys(), actions@[1]->Spawn_0@);
                            assert(actions@.map_values(|a: ServiceAction| a@) =~= seq![
                                ServiceActionModel::Cancel(actions@[1]->Spawn_0@),
                                ServiceActionModel::Spawn(actions@[1]->Spawn_0@),
                            ]);
                        }
                    },
                    None => {
                        let ghost keyv = key@;
                        self.services.push(key.clone());
                        actions.push(ServiceAction::Spawn(key));
                        proof {
                            assert forall|j: int|
                                0 <= j < pre.keys().len() implies self.keys()[j] == pre.keys()[j]
                            by {
                                assert(self.services@[j] == pre.services@[j]);
                            }
                            assert(self.keys()[pre.keys().len() as int] == keyv);
                            assert(self.keys() =~= pre.keys().push(keyv));
                            assert(actions@.map_values(|a: ServiceAction| a@) =~= seq![
                                ServiceActionModel::Spawn(keyv),
                            ]);
                            assert forall|a: int, b: int|
                                0 <= a < b < self.keys().len() implies self.keys()[a]
                                != self.keys()[b] by {
                                lemma_first_index_of(pre.keys(), keyv);
                                if b < pre.keys().len() {
                                    assert(self.keys()[a] == pre.keys()[a]);
                                    assert(self.keys()[b] == pre.keys()[b]);
                                } else {
                                    assert(self.keys()[a] == pre.keys()[a]);
                                    assert(pre.keys()[a] != keyv);
                                }
                            }
                        }
                    },
                }
                actions
            },
            GlobalBackgroundCmd::Remove(key) => {
                let mut actions: Vec<ServiceAction> = Vec::new();
                proof {
                    lemma_first_index_of(pre.keys(), key@);
                }
                match self.find_key(key.as_str()) {
                    Some(i) => {
                        self.services.remove(i);
                        actions.push(ServiceAction::Cancel(key));
                        proof {
                            let keyv = actions@[0]->Cancel_0@;
                            assert forall|j: int|
                                0 <= j < self.keys().len() implies self.keys()[j] == (
                            if j < i {
                                pre.keys()[j]
                            } else {
                                pre.keys()[j + 1]
                            }) by {
                                if j < i {
                                    assert(self.services@[j] == pre.services@[j]);
                                } else {
                                    assert(self.services@[j] == pre.services@[j + 1]);
                                }
                            }
                            assert(self.keys() =~= pre.keys().remove(i as int));
                            assert(actions@.map_values(|a: ServiceAction| a@) =~= seq![
                                ServiceActionModel::Cancel(keyv),
                            ]);
                            if self.keys().contains(keyv) {
                                let k = choose|k: int|
                                    0 <= k < self.keys().len() && self.keys()[k] == keyv;
                                if k < i {
                                    assert(pre.keys()[k] == keyv);
                                } else {
                                    assert(pre.keys()[k + 1] == keyv);
                                    assert(pre.keys()[i as int] == keyv);
                                }
                                assert(false);
                            }
                            assert forall|a: int, b: int|
                                0 <= a < b < self.keys().len() implies self.keys()[a]
                                != self.keys()[b] by {
                                let pa = if a < i {
                                    a
                                } else {
                                    a + 1
                                };
                                let pb = if b < i {
                                    b
                                } else {
                                    b + 1
                                };
                                assert(self.keys()[a] == pre.keys()[pa]);
                                assert(self.keys()[b] == pre.keys()[pb]);
                            }
                        }
                    },
                    None => {
                        proof {
                            if pre.keys().contains(key@) {
                                let k = choose|k: int|
                                    0 <= k < pre.keys().len() && pre.keys()[k] == key@;
                                lemma_first_index_of(pre.keys(), key@);
                            }
                        }
                    },
                }
                actions
            },
        }
    }

    /// The shutdown broadcast: one cancel per registered task, in
    /// registration order.
    pub fn cancel_all(&self) -> (actions: Vec<ServiceAction>)
        ensures
            actions@.len() == self.services@.len(),
            forall|j: int|
                0 <= j < actions@.len() ==> (#[trigger] actions@[j])@
                    == ServiceActionModel::Cancel(self.keys()[j]),
    {
        let mut actions: Vec<ServiceAction> = Vec::new();
        let n = self.services.len();
        let mut i: usize = 0;
        while i < n
            invariant
                n == self.services@.len(),
                i <= n,
                actions@.len() == i,
                forall|j: int|
                    0 <= j < i ==> (#[trigger] actions@[j])@ == ServiceActionModel::Cancel(
                        self.keys()[j],
                    ),
            decreases n - i,
        {
            actions.push(ServiceAction::Cancel(self.services[i].clone()));
            i = i + 1;
        }
        actions
    }
}

/// The supervisor key paired with a route: `<name>_hc`.
pub open spec fn hc_key_of(name: Seq<char>) -> Seq<char> {
    name + "_hc"@
}

/// Builds the `<name>_hc` supervisor key of a route.
pub fn hc_key(name: &str) -> (r: String)
    ensures
        r@ == hc_key_of(name@),
{
    let mut k = name.to_owned();
    k.append("_hc");
    k
}

/// Two routes share a supervisor key only when they share a name.
pub proof fn lemma_hc_key_injective(a: Seq<char>, b: Seq<char>)
    ensures
        hc_key_of(a) == hc_key_of(b) ==> a == b,
{
    if hc_key_of(a) == hc_key_of(b) {
        assert(hc_key_of(a).len() == a.len() + "_hc"@.len());
        assert(hc_key_of(b).len() == b.len() + "_hc"@.len());
        assert(a.len() == b.len());
        assert forall|i: int| 0 <= i < a.len() implies a[i] == b[i] by {
            assert(hc_key_of(a)[i] == a[i]);
            assert(hc_key_of(b)[i] == b[i]);
        }
        assert(a =~= b);
    }
}

/// No route's health-check key collides with the container watcher's key.
pub proof fn lemma_hc_key_not_watcher(name: Seq<char>)
    ensures
        hc_key_of(name) != DOCKER_BACKGROUND_SERVICE_NAME@,
{
    reveal_strlit("_hc");
    reveal_strlit("docker_background_service");
    if hc_key_of(name) == DOCKER_BACKGROUND_SERVICE_NAME@ {
        assert(hc_key_of(name).len() == name.len() + 3);
        assert(DOCKER_BACKGROUND_SERVICE_NAME@.len() == 25);
        assert(hc_key_of(name)[name.len() as int + 2] == "_hc"@[2]);
        assert(DOCKER_BACKGROUND_SERVICE_NAME@[24] == 'e');
        assert("_hc"@[2] == 'c');
    }
}

/// The set of health-check keys the routing table calls for.
pub open spec fn route_hc_key_set(routes: RoutingTable) -> Set<Seq<char>> {
    Set::new(
        |k: Seq<char>|
            exists|i: int|
                0 <= i < routes.names().len() && k == hc_key_of(#[trigger] routes.names()[i]),
    )
}

/// The supervisor runs exactly the tasks the routing table calls for: one
/// `<name>_hc` per route, plus the container watcher when it has been
/// registered.
pub open spec fn supervisor_in_sync(
    routes: RoutingTable,
    background: GlobalBackgroundService,
    watcher: bool,
) -> bool {
    background.key_set() == route_hc_key_set(routes) + (if watcher {
        set![DOCKER_BACKGROUND_SERVICE_NAME@]
    } else {
        Set::<Seq<char>>::empty()
    })
}

/// A route-manager command: install a load balancer under a name, or
/// retire the one under a name.
pub enum ProxyCmd {
    Add(String, GatewayLoadBalancerOptions),
    Remove(String),
}

/// The load balancer the route manager builds for a command.
pub open spec fn lb_built_from(
    lb: GatewayLoadBalancer,
    name: Seq<char>,
    options: GatewayLoadBalancerOptions,
) -> bool {
    &&& lb.wf()
    &&& lb.name@ == name
    &&& lb.match_rule == options.match_rule
    &&& lb.rewrite == options.rewrite
    &&& lb.service_discovery == options.service_discovery
    &&& lb.health_check == options.health_check
    &&& lb.backends@.len() == 0
    &&& lb.cursor == 0
}

/// The route manager: consumes `ProxyCmd`s in order, mutates the routing
/// table, and issues the matching supervisor command.
pub struct ProxyService {
}

impl ProxyService {
    pub fn new() -> (r: ProxyService) {
        ProxyService {  }
    }

    /// Processes one route command against the routing table and returns
    /// the supervisor command it entails. The table change is complete
    /// before the supervisor command is handed out, so a new route is
    /// serviceable before its health-check task starts.
    pub fn apply(&self, routes: &mut RoutingTable, cmd: ProxyCmd) -> (sup: GlobalBackgroundCmd)
        requires
            old(routes).wf(),
        ensures
            final(routes).wf(),
            cmd matches ProxyCmd::Add(name, options) ==> {
                &&& final(routes).contains_route(name@)
                &&& (first_index_of(old(routes).names(), name@) == -1 ==> final(routes).names()
                    == old(routes).names().push(name@) && final(routes).routes@.len() == old(
                    routes,
                ).routes@.len() + 1 && (forall|j: int|
                    0 <= j < old(routes).routes@.len() ==> final(routes).routes@[j] == old(
                        routes,
                    ).routes@[j]) && lb_built_from(
                    final(routes).routes@[old(routes).routes@.len() as int].1,
                    name@,
                    options,
                ))
                &&& (first_index_of(old(routes).names(), name@) != -1 ==> final(routes).names()
                    == old(routes).names() && final(routes).routes@.len() == old(
                    routes,
                ).routes@.len() && (forall|j: int|
                    0 <= j < old(routes).routes@.len() && j != first_index_of(
                        old(routes).names(),
                        name@,
                    ) ==> final(routes).routes@[j] == old(routes).routes@[j]) && lb_built_from(
                    final(routes).routes@[first_index_of(old(routes).names(), name@)].1,
                    name@,
                    options,
                ))
                &&& (sup matches GlobalBackgroundCmd::Add(k) && k@ == hc_key_of(name@))
            },
            cmd matches ProxyCmd::Remove(name) ==> {
                &&& !final(routes).contains_route(name@)
                &&& (first_index_of(old(routes).names(), name@) == -1 ==> *final(routes) == *old(
                    routes,
                ))
                &&& (first_index_of(old(routes).names(), name@) != -1 ==> final(routes).routes@
                    == old(routes).routes@.remove(first_index_of(old(routes).names(), name@)))
                &&& (sup matches GlobalBackgroundCmd::Remove(k) && k@ == hc_key_of(name@))
            },
    {
        match cmd {
            ProxyCmd::Add(name, options) => {
                let key = hc_key(name.as_str());
                let lb = GatewayLoadBalancer::new(name.as_str(), options);
                let ghost namev = name@;
                let ghost pre = *routes;
                routes.insert(name, lb);
                proof {
                    lemma_first_index_of(pre.names(), namev);
                    if first_index_of(pre.names(), namev) == -1 {
                        assert(routes.names() =~= pre.names().push(namev));
                    } else {
                        let i = first_index_of(pre.names(), namev);
                        assert(pre.names()[i] == namev);
                        assert forall|j: int|
                            0 <= j < pre.names().len() implies routes.names()[j] == pre.names()[j]
                        by {
                            if j != i {
                                assert(routes.routes@[j] == pre.routes@[j]);
                            } else {
                                assert(routes.routes@[j].0@ == namev);
                            }
                        }
                        assert(routes.names() =~= pre.names());
                    }
                }
                GlobalBackgroundCmd::Add(key)
            },
            ProxyCmd::Remove(name) => {
                let key = hc_key(name.as_str());
                routes.remove(name.as_str());
                GlobalBackgroundCmd::Remove(key)
            },
        }
    }
}

/// A freshly booted gateway starts in sync: no routes, no supervised
/// tasks, no watcher.
pub proof fn lemma_empty_state_in_sync(routes: RoutingTable, background: GlobalBackgroundService)
    requires
        routes.routes@.len() == 0,
        background.services@.len() == 0,
    ensures
        supervisor_in_sync(routes, background, false),
{
    assert(background.key_set() =~= route_hc_key_set(routes) + Set::<Seq<char>>::empty());
}

/// Registering the container watcher brings the supervisor in sync with a
/// configured watcher: whether the key was fresh or already held, the
/// supervisor afterwards runs exactly the routes' tasks plus the watcher.
pub proof fn lemma_watcher_registration_in_sync(
    routes: RoutingTable,
    pre: GlobalBackgroundService,
    post: GlobalBackgroundService,
)
    requires
        first_index_of(pre.keys(), DOCKER_BACKGROUND_SERVICE_NAME@) == -1 ==> post.keys()
            == pre.keys().push(DOCKER_BACKGROUND_SERVICE_NAME@),
        first_index_of(pre.keys(), DOCKER_BACKGROUND_SERVICE_NAME@) != -1 ==> post.keys()
            == pre.keys(),
        supervisor_in_sync(routes, pre, false) || supervisor_in_sync(routes, pre, true),
    ensures
        supervisor_in_sync(routes, post, true),
{
    let w = DOCKER_BACKGROUND_SERVICE_NAME@;
    lemma_first_index_of(pre.keys(), w);
    assert(post.key_set() =~= pre.key_set().insert(w)) by {
        if first_index_of(pre.keys(), w) == -1 {
            assert forall|k: Seq<char>| post.key_set().contains(k) implies pre.key_set().insert(
                w,
            ).contains(k) by {
                let i = choose|i: int| 0 <= i < post.keys().len() && post.keys()[i] == k;
                if i < pre.keys().len() {
                    assert(pre.keys()[i] == k);
                }
            }
            assert forall|k: Seq<char>|
                pre.key_set().insert(w).contains(k) implies post.key_set().contains(k) by {
                if k == w {
                    assert(post.keys()[pre.keys().len() as int] == w);
                } else {
                    let i = choose|i: int| 0 <= i < pre.keys().len() && pre.keys()[i] == k;
                    assert(post.keys()[i] == k);
                }
            }
        } else {
            assert(pre.keys()[first_index_of(pre.keys(), w)] == w);
            assert(pre.keys().contains(w));
        }
    }
    let whc = set![DOCKER_BACKGROUND_SERVICE_NAME@];
    if supervisor_in_sync(routes, pre, false) {
        assert(post.key_set() =~= route_hc_key_set(routes) + whc);
    } else {
        assert(pre.key_set().contains(w));
        assert(post.key_set() =~= pre.key_set());
        assert(post.key_set() =~= route_hc_key_set(routes) + whc);
    }
}

/// A name is found in a sequence exactly when it occurs there.
pub proof fn lemma_first_index_iff_contains(names: Seq<Seq<char>>, target: Seq<char>)
    ensures
        (first_index_of(names, target) != -1) == names.contains(target),
{
    lemma_first_index_of(names, target);
    if names.contains(target) {
        let i = choose|i: int| 0 <= i < names.len() && names[i] == target;
        if first_index_of(names, target) == -1 {
            assert(names[i] != target);
        }
    }
    if first_index_of(names, target) != -1 {
        assert(names[first_index_of(names, target)] == target);
    }
}

impl ProxyService {
    /// Processes one route command end to end: first the routing-table
    /// change, then the supervisor command it entails. Whatever tasks the
    /// supervisor was running in step with the old table, it runs in step
    /// with the new one: exactly one `<name>_hc` task per route, and the
    /// container watcher untouched.
    pub fn apply_with_supervisor(
        &self,
        routes: &mut RoutingTable,
        background: &mut GlobalBackgroundService,
        cmd: ProxyCmd,
    ) -> (actions: Vec<ServiceAction>)
        requires
            old(routes).wf(),
            old(background).wf(),
        ensures
            final(routes).wf(),
            final(background).wf(),
            forall|w: bool|
                supervisor_in_sync(*old(routes), *old(background), w) ==> supervisor_in_sync(
                    *final(routes),
                    *final(background),
                    w,
                ),
            cmd matches ProxyCmd::Add(name, options) ==> final(routes).contains_route(name@),
            cmd matches ProxyCmd::Remove(name) ==> !final(routes).contains_route(name@),
    {
        let ghost pre_r = *routes;
        let ghost pre_b = *background;
        let ghost cmd_snap = cmd;
        let sup = self.apply(routes, cmd);
        let actions = background.apply_cmd(sup);
        proof {
            match cmd_snap {
                ProxyCmd::Add(name, _options) => {
                    let n = name@;
                    let h = hc_key_of(n);
                    lemma_first_index_of(pre_r.names(), n);
                    lemma_first_index_of(pre_b.keys(), h);
                    lemma_first_index_iff_contains(pre_b.keys(), h);
                    lemma_first_index_iff_contains(background.keys(), h);
                    assert(background.key_set() =~= pre_b.key_set().insert(h)) by {
                        if first_index_of(pre_b.keys(), h) == -1 {
                            assert(background.keys() == pre_b.keys().push(h));
                            assert forall|k: Seq<char>|
                                background.key_set().contains(k) implies pre_b.key_set().insert(
                                h,
                            ).contains(k) by {
                                let i = choose|i: int|
                                    0 <= i < background.keys().len() && background.keys()[i] == k;
                                if i < pre_b.keys().len() {
                                    assert(pre_b.keys()[i] == k);
                                }
                            }
                            assert forall|k: Seq<char>|
                                pre_b.key_set().insert(h).contains(k) implies background
                                .key_set().contains(k) by {
                                if k == h {
                                    assert(background.keys()[pre_b.keys().len() as int] == h);
                                } else {
                                    let i = choose|i: int|
                                        0 <= i < pre_b.keys().len() && pre_b.keys()[i] == k;
                                    assert(background.keys()[i] == k);
                                }
                            }
                        } else {
                            assert(background.keys() == pre_b.keys());
                            assert(pre_b.keys()[first_index_of(pre_b.keys(), h)] == h);
                            assert(pre_b.keys().contains(h));
                        }
                    }
                    assert(route_hc_key_set(*routes) =~= route_hc_key_set(pre_r).insert(h)) by {
                        if first_index_of(pre_r.names(), n) == -1 {
                            assert(routes.names() == pre_r.names().push(n));
                            assert forall|k: Seq<char>|
                                route_hc_key_set(*routes).contains(k) implies route_hc_key_set(
                                pre_r,
                            ).insert(h).contains(k) by {
                                let i = choose|i: int|
                                    0 <= i < routes.names().len() && k == hc_key_of(
                                        routes.names()[i],
                                    );
                                if i < pre_r.names().len() {
                                    assert(k == hc_key_of(pre_r.names()[i]));
                                }
                            }
                            assert forall|k: Seq<char>|
                                route_hc_key_set(pre_r).insert(h).contains(k) implies
                                route_hc_key_set(*routes).contains(k) by {
                                if k == h {
                                    assert(routes.names()[pre_r.names().len() as int] == n);
                                    assert(k == hc_key_of(
                                        routes.names()[pre_r.names().len() as int],
                                    ));
                                } else {
                                    let i = choose|i: int|
                                        0 <= i < pre_r.names().len() && k == hc_key_of(
                                            pre_r.names()[i],
                                        );
                                    assert(k == hc_key_of(routes.names()[i]));
                                }
                            }
                        } else {
                            assert(routes.names() == pre_r.names());
                            let i = first_index_of(pre_r.names(), n);
                            assert(pre_r.names()[i] == n);
                            assert(h == hc_key_of(pre_r.names()[i]));
                            assert(route_hc_key_set(pre_r).contains(h));
                        }
                    }
                    assert forall|w: bool|
                        supervisor_in_sync(pre_r, pre_b, w) implies supervisor_in_sync(
                        *routes,
                        *background,
                        w,
                    ) by {
                        let whc = if w {
                            set![DOCKER_BACKGROUND_SERVICE_NAME@]
                        } else {
                            Set::<Seq<char>>::empty()
                        };
                        assert(background.key_set() =~= route_hc_key_set(*routes) + whc);
                    }
                },
                ProxyCmd::Remove(name) => {
                    let n = name@;
                    let h = hc_key_of(n);
                    lemma_first_index_of(pre_r.names(), n);
                    lemma_first_index_of(pre_b.keys(), h);
                    lemma_first_index_iff_contains(pre_b.keys(), h);
                    lemma_hc_key_not_watcher(n);
                    assert(background.key_set() =~= pre_b.key_set().remove(h)) by {
                        if first_index_of(pre_b.keys(), h) == -1 {
                            assert(*background == pre_b);
                            lemma_first_index_iff_contains(pre_b.keys(), h);
                            assert(!pre_b.key_set().contains(h));
                        } else {
                            let i = first_index_of(pre_b.keys(), h);
                            assert(background.keys() == pre_b.keys().remove(i));
                            pre_b.keys().remove_ensures(i);
                            assert forall|k: Seq<char>|
                                background.key_set().contains(k) implies pre_b.key_set().remove(
                                h,
                            ).contains(k) by {
                                let j = choose|j: int|
                                    0 <= j < background.keys().len() && background.keys()[j] == k;
                                if j < i {
                                    assert(pre_b.keys()[j] == k);
                                } else {
                                    assert(pre_b.keys()[j + 1] == k);
                                }
                                assert(!background.keys().contains(h));
                            }
                            assert forall|k: Seq<char>|
                                pre_b.key_set().remove(h).contains(k) implies background
                                .key_set().contains(k) by {
                                let j = choose|j: int|
                                    0 <= j < pre_b.keys().len() && pre_b.keys()[j] == k;
                                if j < i {
                                    assert(background.keys()[j] == k);
                                } else {
                                    assert(pre_b.keys()[i] == h);
                                    assert(j != i);
                                    assert(background.keys()[j - 1] == k);
                                }
                            }
                        }
                    }
                    assert(route_hc_key_set(*routes) =~= route_hc_key_set(pre_r).remove(h)) by {
                        if first_index_of(pre_r.names(), n) == -1 {
                            assert(*routes == pre_r);
                            if route_hc_key_set(pre_r).contains(h) {
                                let i = choose|i: int|
                                    0 <= i < pre_r.names().len() && h == hc_key_of(
                                        pre_r.names()[i],
                                    );
                                lemma_hc_key_injective(pre_r.names()[i], n);
                                assert(pre_r.names()[i] == n);
                            }
                            assert(!route_hc_key_set(pre_r).contains(h));
                        } else {
                            let i = first_index_of(pre_r.names(), n);
                            assert(pre_r.names()[i] == n);
                            assert forall|j: int|
                                0 <= j < routes.names().len() implies routes.names()[j] == (
                            if j < i {
                                pre_r.names()[j]
                            } else {
                                pre_r.names()[j + 1]
                            }) by {
                                if j < i {
                                    assert(routes.routes@[j] == pre_r.routes@[j]);
                                } else {
                                    assert(routes.routes@[j] == pre_r.routes@[j + 1]);
                                }
                            }
                            assert forall|k: Seq<char>|
                                route_hc_key_set(*routes).contains(k) implies route_hc_key_set(
                                pre_r,
                            ).remove(h).contains(k) by {
                                let j = choose|j: int|
                                    0 <= j < routes.names().len() && k == hc_key_of(
                                        routes.names()[j],
                                    );
                                let pj = if j < i {
                                    j
                                } else {
                                    j + 1
                                };
                                assert(k == hc_key_of(pre_r.names()[pj]));
                                if k == h {
                                    lemma_hc_key_injective(pre_r.names()[pj], n);
                                    assert(pre_r.names()[pj] == n);
                                    assert(pj != i);
                                }
                            }
                            assert forall|k: Seq<char>|
                                route_hc_key_set(pre_r).remove(h).contains(k) implies
                                route_hc_key_set(*routes).contains(k) by {
                                let j = choose|j: int|
                                    0 <= j < pre_r.names().len() && k == hc_key_of(
                                        pre_r.names()[j],
                                    );
                                if j != i {
                                    let nj = if j < i {
                                        j
                                    } else {
                                        j - 1
                                    };
                                    assert(routes.names()[nj] == pre_r.names()[j]);
                                    assert(k == hc_key_of(routes.names()[nj]));
                                }
                            }
                        }
                    }
                    assert forall|w: bool|
                        supervisor_in_sync(pre_r, pre_b, w) implies supervisor_in_sync(
                        *routes,
                        *background,
                        w,
                    ) by {
                        let whc = if w {
                            set![DOCKER_BACKGROUND_SERVICE_NAME@]
                        } else {
                            Set::<Seq<char>>::empty()
                        };
                        assert(!whc.contains(h));
                        assert(background.key_set() =~= route_hc_key_set(*routes) + whc);
                    }
                },
            }
        }
        actions
    }
}

} // verus!
