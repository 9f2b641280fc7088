//! The per-request dispatch path: the rate-limit filter and the upstream
//! selection, over plain values the listener extracts from the request.

use vstd::prelude::*;
use crate::consts::GATEWAY_QUERY_EXT;
use crate::endpoint::bag_get;
use crate::endpoint::bag_lookup;
use crate::endpoint::label_view;
use crate::lb::GatewayLoadBalancer;
use crate::lb::opt_view;
use crate::lb::spec_select;
use crate::lb::wrap_index;
use crate::rules::re_match;
use crate::rules::re_replace;
use crate::rules::CompiledRegex;
use crate::store::AppTable;
use crate::store::RoutingTable;
use crate::store::first_match;
use vstd::string::StringExecFns;

verus! {

/// What `form_urlencoded::parse` yields on a query string: its (name,
/// value) pairs, in order and percent-decoded.
pub uninterp spec fn query_pairs_of(q: Seq<char>) -> Seq<(Seq<char>, Seq<char>)>;

/// Relies on `form_urlencoded::parse`: decodes an
/// `application/x-www-form-urlencoded` string into its (name, value)
/// pairs, a function of the input alone.
#[verifier::external_body]
fn parse_query(q: &str) -> (r: Vec<(String, String)>)
    ensures
        label_view(r@) == query_pairs_of(q@),
{
    form_urlencoded::parse(q.as_bytes()).into_owned().collect()
}

/// The first value bound to `param_name` in a query string.
pub fn get_query_param(query_str: &str, param_name: &str) -> (r: Option<String>)
    ensures
        match r {
            Some(v) => bag_lookup(query_pairs_of(query_str@), param_name@) == Some(v@),
            None => bag_lookup(query_pairs_of(query_str@), param_name@) is None,
        },
{
    let pairs = parse_query(query_str);
    bag_get(&pairs, param_name)
}

/// The view of an optional borrowed string.
pub open spec fn opt_ref_view(o: Option<&str>) -> Option<Seq<char>> {
    match o {
        None => None,
        Some(s) => Some(s@),
    }
}

/// The affinity tag of a request: the `X-Gateway-Ext` header wins; absent
/// that, the `x-gateway-ext` query parameter.
pub open spec fn ext_value_of(header: Option<Seq<char>>, query: Option<Seq<char>>) -> Option<
    Seq<char>,
> {
    match header {
        Some(v) => Some(v),
        None => match query {
            Some(q) => bag_lookup(query_pairs_of(q), GATEWAY_QUERY_EXT@),
            None => None,
        },
    }
}

/// Extracts the request's affinity tag from the header value and query
/// string the listener saw.
pub fn get_ext_value(header: Option<String>, query: Option<&str>) -> (r: Option<String>)
    ensures
        opt_view(r) == ext_value_of(opt_view(header), opt_ref_view(query)),
{
    match header {
        Some(v) => Some(v),
        None => match query {
            Some(q) => get_query_param(q, GATEWAY_QUERY_EXT),
            None => None,
        },
    }
}

/// The dispatcher's verdict on one request's rate-limit check.
pub enum RateDecision {
    Allowed,
    /// Reject with 429; carries the tenant's limit for the
    /// `X-Rate-Limit-Limit` response header.
    Limited(u32),
}

/// The pre-forward filter: a request without a tenant id, or with an
/// unknown one, bypasses the limiter entirely. A known tenant's window
/// count is observed, and the request is rejected exactly when the count
/// exceeds the tenant's limit.
pub fn check_rate_limit(apps: &AppTable, appid: &Option<String>) -> (r: RateDecision)
    ensures
        appid is None ==> r == RateDecision::Allowed,
        (appid matches Some(id) && !apps.contains_id(id@)) ==> r == RateDecision::Allowed,
        r matches RateDecision::Limited(l) ==> (appid matches Some(id) && apps.contains_id(id@)
            && l as int == apps.limit_of(id@)),
{
    match appid {
        Some(id) => match apps.get(id.as_str()) {
            Some(app) => {
                let rl = app.rate_limiter();
                let count = rl.increase(id.as_str());
                if rl.is_exceeded(count) {
                    RateDecision::Limited(rl.limit())
                } else {
                    RateDecision::Allowed
                }
            },
            None => RateDecision::Allowed,
        },
        None => RateDecision::Allowed,
    }
}

/// The path a matched route forwards: rewritten when the route has a
/// rewrite whose pattern matches, the original path otherwise.
pub open spec fn route_rewritten_path(
    rw: Option<(CompiledRegex, String)>,
    path: Seq<char>,
) -> Seq<char> {
    match rw {
        Some(p) => if re_match(p.0@, path) {
            re_replace(p.0@, path, p.1@)
        } else {
            path
        },
        None => path,
    }
}

/// A path with its query string re-appended, unchanged.
pub open spec fn with_query(p: Seq<char>, q: Option<Seq<char>>) -> Seq<char> {
    match q {
        None => p,
        Some(qs) => p + seq!['?'] + qs,
    }
}

/// Everything of a load balancer but its round-robin cursor.
pub open spec fn lb_same_but_cursor(a: GatewayLoadBalancer, b: GatewayLoadBalancer) -> bool {
    &&& a.name == b.name
    &&& a.match_rule == b.match_rule
    &&& a.rewrite == b.rewrite
    &&& a.service_discovery == b.service_discovery
    &&& a.health_check == b.health_check
    &&& a.backends == b.backends
    &&& a.healthy == b.healthy
}

/// Where one request goes.
pub enum DispatchOutcome {
    /// No route matched the path, or the matched route had no eligible
    /// backend.
    NoRoute,
    /// Forward to `host:port`, with the upstream-facing path and query.
    Forward { route: String, host: String, port: u16, path_and_query: String },
}

/// The upstream-selection half of request handling: finds the first route
/// matching the path, applies its rewrite, reads the affinity tag from
/// header or query, and picks the next eligible backend round-robin.
pub fn select_upstream(
    routes: &mut RoutingTable,
    path: &str,
    query: Option<&str>,
    ext_header: Option<String>,
) -> (r: DispatchOutcome)
    requires
        old(routes).wf(),
    ensures
        final(routes).wf(),
        first_match(old(routes).routes@, path@) is None ==> (r == DispatchOutcome::NoRoute
            && final(routes).routes@ == old(routes).routes@),
        first_match(old(routes).routes@, path@) matches Some(i) ==> ({
            let lb = old(routes).routes@[i].1;
            let extv = ext_value_of(opt_view(ext_header), opt_ref_view(query));
            let sel = spec_select(
                lb.backend_models(),
                lb.healthy@,
                lb.health_check,
                extv,
                lb.cursor as int,
            );
            &&& (sel is None ==> r == DispatchOutcome::NoRoute && final(routes).routes@ == old(
                routes,
            ).routes@)
            &&& (sel matches Some(b) ==> {
                &&& (r matches DispatchOutcome::Forward { route, host, port, path_and_query }
                    && route@ == old(routes).routes@[i].0@ && host@ == lb.backend_models()[b].host && port
                    == lb.backend_models()[b].port && path_and_query@ == with_query(
                    route_rewritten_path(lb.rewrite, path@),
                    opt_ref_view(query),
                ))
                &&& final(routes).routes@.len() == old(routes).routes@.len()
                &&& (forall|j: int|
                    0 <= j < old(routes).routes@.len() && j != i ==> final(routes).routes@[j]
                        == old(routes).routes@[j])
                &&& final(routes).routes@[i].0 == old(routes).routes@[i].0
                &&& lb_same_but_cursor(final(routes).routes@[i].1, lb)
                &&& final(routes).routes@[i].1.cursor as int == wrap_index(
                    b,
                    lb.backends@.len() as int,
                )
            })
        }),
{
    let m = routes.find_match(path);
    match m {
        None => DispatchOutcome::NoRoute,
        Some(i) => {
            let ext = get_ext_value(ext_header, query);
            let ghost pre_t = *routes;
            let ghost pre = routes.routes@;
            let entry = &mut routes.routes[i];
            let new_path = entry.1.rewrite_path(path);
            let sel = entry.1.select(&ext);
            match sel {
                None => {
                    proof {
                        assert(*entry == pre[i as int]);
                        assert(routes.routes@ =~= pre);
                        assert forall|j: int| 0 <= j < routes.names().len() implies routes.names()[
                            j
                        ] == pre_t.names()[j] by {
                            assert(routes.routes@[j] == pre_t.routes@[j]);
                        }
                        assert forall|a: int, c: int|
                            0 <= a < c < routes.names().len() implies routes.names()[a]
                            != routes.names()[c] by {
                            assert(routes.names()[a] == pre_t.names()[a]);
                            assert(routes.names()[c] == pre_t.names()[c]);
                        }
                    }
                    DispatchOutcome::NoRoute
                },
                Some(b) => {
                    let host = entry.1.backends[b].host.clone();
                    let port = entry.1.backends[b].port;
                    let route_name = entry.0.clone();
                    let p = match new_path {
                        Some(p) => p,
                        None => path.to_owned(),
                    };
                    let mut pq = p;
                    match query {
                        Some(q) => {
                            pq.append("?");
                            pq.append(q);
                            proof {
                                reveal_strlit("?");
                                assert("?"@ =~= seq!['?']);
                            }
                        },
                        None => {},
                    }
                    proof {
                        assert(routes.routes@ =~= pre.update(i as int, routes.routes@[i as int]));
                        assert(routes.routes@[i as int].1.backend_models()[b as int]
                            == routes.routes@[i as int].1.backends@[b as int]@);
                        assert(pre[i as int].1.backend_models()[b as int] == pre[
                            i as int
                        ].1.backends@[b as int]@);
                        assert forall|j: int| 0 <= j < routes.names().len() implies routes.names()[
                            j
                        ] == pre_t.names()[j] by {
                            if j != i {
                                assert(routes.routes@[j] == pre_t.routes@[j]);
                            } else {
                                assert(routes.routes@[j].0 == pre_t.routes@[j].0);
                            }
                        }
                        assert forall|j: int| 0 <= j < routes.routes@.len() implies (
                        #[trigger] routes.routes@[j]).1.wf() by {
                            if j != i {
                                assert(routes.routes@[j] == pre_t.routes@[j]);
                            }
                        }
                        assert forall|a: int, c: int|
                            0 <= a < c < routes.names().len() implies routes.names()[a]
                            != routes.names()[c] by {
                            assert(routes.names()[a] == pre_t.names()[a]);
                            assert(routes.names()[c] == pre_t.names()[c]);
                        }
                    }
                    DispatchOutcome::Forward { route: route_name, host, port, path_and_query: pq }
                },
            }
        },
    }
}

} // verus!
