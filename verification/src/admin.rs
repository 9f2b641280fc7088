//! Admin ingestion: validates admin requests against the shared tables and
//! applies them, or hands back the command the route manager must run.
//! Rejected requests never mutate state.

use vstd::prelude::*;
use crate::app::AdminError;
use crate::app::Application;
use crate::app::LbInfo;
use crate::app::build_lb_options;
use crate::app::lb_request_valid;
use crate::app::options_built_from;
use crate::app::valid_match_rule;
use crate::app::valid_rewrite;
use crate::lb::GatewayLoadBalancerOptions;
use crate::rules::re_valid;
use crate::store::AppTable;
use crate::store::RoutingTable;
use crate::store::first_index_of;
use crate::store::lemma_first_index_of;

verus! {

/// Registers a new tenant; a duplicate id is rejected without change.
pub fn add_application(apps: &mut AppTable, app: Application) -> (r: Result<(), AdminError>)
    requires
        old(apps).wf(),
    ensures
        final(apps).wf(),
        (r is Ok) == !old(apps).contains_id(app.app_id@),
        r is Err ==> *final(apps) == *old(apps) && r == Err::<(), AdminError>(
            AdminError::DuplicateApplication,
        ),
        r is Ok ==> final(apps).ids() == old(apps).ids().push(app.app_id@) && final(apps).contains_id(app.app_id@) && final(apps).limit_of(app.app_id@) == app.limit as int,
{
    match apps.find(app.app_id.as_str()) {
        Some(_) => {
            proof {
                lemma_first_index_of(apps.ids(), app.app_id@);
            }
            Err(AdminError::DuplicateApplication)
        },
        None => {
            let ghost pre = *apps;
            let ghost idv = app.app_id@;
            let ghost limitv = app.limit as int;
            let id = app.app_id.clone();
            let ga = app.into_gateway_application();
            apps.insert(id, ga);
            proof {
                assert forall|j: int| 0 <= j < pre.ids().len() implies apps.ids()[j] == pre.ids()[
                    j
                ] by {
                    assert(apps.apps@[j] == pre.apps@[j]);
                }
                assert(apps.ids()[pre.ids().len() as int] == idv);
                assert(apps.ids() =~= pre.ids().push(idv));
                lemma_first_index_of(pre.ids(), idv);
                lemma_first_index_of(apps.ids(), idv);
                let k = first_index_of(apps.ids(), idv);
                assert(apps.ids()[k] == idv);
                if k < pre.ids().len() {
                    assert(pre.ids()[k] == idv);
                }
                assert(k == pre.ids().len());
                assert(apps.apps@[k].1.spec_limit() == limitv);
            }
            Ok(())
        },
    }
}

/// Replaces a registered tenant wholesale; an unknown id is rejected
/// without change.
pub fn update_application(apps: &mut AppTable, app: Application) -> (r: Result<(), AdminError>)
    requires
        old(apps).wf(),
    ensures
        final(apps).wf(),
        (r is Ok) == old(apps).contains_id(app.app_id@),
        r is Err ==> *final(apps) == *old(apps) && r == Err::<(), AdminError>(
            AdminError::ApplicationNotFound,
        ),
        r is Ok ==> final(apps).ids() == old(apps).ids() && final(apps).limit_of(app.app_id@)
            == app.limit as int && (forall|j: int|
            0 <= j < old(apps).apps@.len() && j != first_index_of(old(apps).ids(), app.app_id@)
                ==> final(apps).apps@[j] == old(apps).apps@[j]),
{
    match apps.find(app.app_id.as_str()) {
        None => {
            proof {
                lemma_first_index_of(apps.ids(), app.app_id@);
            }
            Err(AdminError::ApplicationNotFound)
        },
        Some(i) => {
            let ghost pre = *apps;
            let ghost idv = app.app_id@;
            let ghost limitv = app.limit as int;
            let id = app.app_id.clone();
            let ga = app.into_gateway_application();
            apps.insert(id, ga);
            proof {
                lemma_first_index_of(pre.ids(), idv);
                assert(pre.ids()[i as int] == idv);
                assert forall|j: int| 0 <= j < pre.ids().len() implies apps.ids()[j] == pre.ids()[
                    j
                ] by {
                    if j != i {
                        assert(apps.apps@[j] == pre.apps@[j]);
                    } else {
                        assert(apps.apps@[j].0@ == idv);
                    }
                }
                assert(apps.ids() =~= pre.ids());
                assert(apps.apps@[i as int].1.spec_limit() == limitv);
            }
            Ok(())
        },
    }
}

/// Unregisters a tenant; an unknown id is a no-op.
pub fn remove_application(apps: &mut AppTable, app_id: &str)
    requires
        old(apps).wf(),
    ensures
        final(apps).wf(),
        !final(apps).contains_id(app_id@),
        first_index_of(old(apps).ids(), app_id@) == -1 ==> *final(apps) == *old(apps),
        first_index_of(old(apps).ids(), app_id@) != -1 ==> final(apps).apps@ == old(apps).apps@.remove(first_index_of(old(apps).ids(), app_id@)),
{
    apps.remove(app_id);
}

/// The configured limit of a registered tenant; unknown ids are rejected.
pub fn get_application(apps: &AppTable, app_id: &str) -> (r: Result<u32, AdminError>)
    ensures
        (r is Ok) == apps.contains_id(app_id@),
        r matches Ok(l) ==> l as int == apps.limit_of(app_id@),
        r is Err ==> r == Err::<u32, AdminError>(AdminError::ApplicationNotFound),
{
    match apps.get(app_id) {
        Some(app) => Ok(app.rate_limiter().limit()),
        None => Err(AdminError::ApplicationNotFound),
    }
}

/// Validates a load-balancer request against the current routing table: a
/// duplicate name is rejected first, then the request itself is compiled.
/// On success the caller sends the returned name and options to the route
/// manager as an installation command.
pub fn add_lb(routes: &RoutingTable, req: LbInfo) -> (r: Result<
    (String, GatewayLoadBalancerOptions),
    AdminError,
>)
    ensures
        (r is Ok) == (!routes.contains_route(req.name@) && lb_request_valid(req)),
        routes.contains_route(req.name@) ==> r == Err::<
            (String, GatewayLoadBalancerOptions),
            AdminError,
        >(AdminError::DuplicateLb),
        r matches Ok(p) ==> p.0 == req.name && options_built_from(p.1, req),
        (!routes.contains_route(req.name@) && !(req.match_rule.typ@ == "path_start_with"@
            || req.match_rule.typ@ == "path_regex"@)) ==> r == Err::<
            (String, GatewayLoadBalancerOptions),
            AdminError,
        >(AdminError::InvalidMatchRule),
        (!routes.contains_route(req.name@) && req.match_rule.typ@ == "path_regex"@ && !re_valid(
            req.match_rule.value@,
        )) ==> r == Err::<(String, GatewayLoadBalancerOptions), AdminError>(
            AdminError::InvalidMatchRegex,
        ),
        (!routes.contains_route(req.name@) && valid_match_rule(req) && !valid_rewrite(req)) ==> r
            == Err::<(String, GatewayLoadBalancerOptions), AdminError>(
            AdminError::InvalidRewriteRegex,
        ),
{
    match routes.find_name(req.name.as_str()) {
        Some(_) => Err(AdminError::DuplicateLb),
        None => {
            let name = req.name.clone();
            match build_lb_options(req) {
                Ok(options) => Ok((name, options)),
                Err(e) => Err(e),
            }
        },
    }
}

} // verus!
