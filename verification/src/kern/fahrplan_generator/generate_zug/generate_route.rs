//! Joins the retrieved routes of a train.
pub mod merge_routes;
pub mod resolved_route;

use crate::kern::fahrplan_generator::generate_zug::generate_route::merge_routes::{merge_routes, merged_route_eintraege};
use crate::kern::fahrplan_generator::generate_zug::generate_route::resolved_route::ResolvedRoute;
use crate::kern::generate_fahrplan::generate_zug::generate_route::merge_routes::can_merge_spec;
use crate::zusi::{eintraege_wf, FahrplanEintrag};
use vstd::prelude::*;

verus! {

/// Why the routes of a train could not be joined.
#[derive(Debug, Clone, PartialEq, Eq)]
pub enum GenerateRouteError {
    /// There is no route.
    NoRouteParts,
    /// Two consecutive routes could not be joined.
    RoutePartsCanNotBeMerged,
}

/// Where joining the routes has got to.
pub enum RouteJoin {
    /// A date-time would leave the range of date-times.
    OutOfRange,
    /// Two consecutive routes could not be joined.
    Failed,
    /// The entries joined so far.
    Joined(Seq<FahrplanEintrag>),
}

/// The first `k` routes joined one after the other.
pub open spec fn join_routes(routes: Seq<ResolvedRoute>, k: nat) -> RouteJoin
    decreases k,
{
    if k <= 1 {
        RouteJoin::Joined(routes[0].fahrplan_eintraege@)
    } else {
        match join_routes(routes, (k - 1) as nat) {
            RouteJoin::Joined(es) => {
                let next = routes[k - 1].fahrplan_eintraege@;
                if !can_merge_spec(es.last(), next[0]) {
                    RouteJoin::Failed
                } else {
                    match merged_route_eintraege(es, next) {
                        Some(m) => RouteJoin::Joined(m),
                        None => RouteJoin::OutOfRange,
                    }
                }
            },
            other => other,
        }
    }
}

/// Every route has entries, all with date-times in range.
pub open spec fn routes_wf(routes: Seq<ResolvedRoute>) -> bool {
    forall|k: int| 0 <= k < routes.len() ==> (#[trigger] routes[k]).fahrplan_eintraege@.len() > 0 && eintraege_wf(routes[k].fahrplan_eintraege@)
}

proof fn lemma_join_routes_stops(routes: Seq<ResolvedRoute>, k: nat, n: nat)
    requires
        1 <= k <= n,
        !(join_routes(routes, k) is Joined),
    ensures
        join_routes(routes, n) == join_routes(routes, k),
    decreases n - k,
{
    if k < n {
        lemma_join_routes_stops(routes, k, (n - 1) as nat);
    }
}

/// Joins the routes in order, each onto what the routes before it gave (see
/// `merge_routes`); the result starts as the first route does.
pub fn generate_route(routes: Vec<ResolvedRoute>) -> (r: Result<ResolvedRoute, GenerateRouteError>)
    requires
        routes_wf(routes@),
        routes@.len() > 0 ==> !(join_routes(routes@, routes@.len()) is OutOfRange),
    ensures
        routes@.len() == 0 ==> r == Err::<ResolvedRoute, GenerateRouteError>(GenerateRouteError::NoRouteParts),
        routes@.len() > 0 ==> match join_routes(routes@, routes@.len()) {
            RouteJoin::Joined(es) => r matches Ok(route) && route.fahrplan_eintraege@ == es
                && route.aufgleis_fahrstrasse == routes@[0].aufgleis_fahrstrasse,
            RouteJoin::Failed => r == Err::<ResolvedRoute, GenerateRouteError>(GenerateRouteError::RoutePartsCanNotBeMerged),
            RouteJoin::OutOfRange => false,
        },
{
    let ghost rs = routes@;
    let n = routes.len();
    if n == 0 {
        return Err(GenerateRouteError::NoRouteParts);
    }
    let mut rest = routes;
    let mut generated = rest.remove(0);
    assert(generated == rs[0]);
    let mut k: usize = 1;
    while rest.len() > 0
        invariant
            routes_wf(rs),
            rs == routes@,
            n == rs.len(),
            1 <= k <= n,
            rest@ == rs.subrange(k as int, n as int),
            !(join_routes(rs, n as nat) is OutOfRange),
            join_routes(rs, k as nat) == RouteJoin::Joined(generated.fahrplan_eintraege@),
            generated.fahrplan_eintraege@.len() > 0,
            eintraege_wf(generated.fahrplan_eintraege@),
            generated.aufgleis_fahrstrasse == rs[0].aufgleis_fahrstrasse,
        decreases rest@.len(),
    {
        let item = rest.remove(0);
        proof {
            assert(item == rs[k as int]);
            assert(rs[k as int].fahrplan_eintraege@.len() > 0 && eintraege_wf(rs[k as int].fahrplan_eintraege@));
            if !(join_routes(rs, (k + 1) as nat) is Joined) {
                lemma_join_routes_stops(rs, (k + 1) as nat, n as nat);
            }
        }
        match merge_routes(generated, item) {
            Ok(merged) => {
                generated = merged;
            },
            Err(_) => {
                proof {
                    assert(join_routes(rs, (k + 1) as nat) == RouteJoin::Failed);
                    lemma_join_routes_stops(rs, (k + 1) as nat, n as nat);
                }
                return Err(GenerateRouteError::RoutePartsCanNotBeMerged);
            },
        }
        k = k + 1;
    }
    Ok(generated)
}

} // verus!
