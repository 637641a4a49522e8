//! Joins the parts of a route.
pub mod generate_route_part;
pub mod merge_routes;
pub mod resolved_route;

use crate::kern::generate_fahrplan::generate_zug::generate_route::merge_routes::{
    can_merge_spec, merge_routes_checked, merged_eintraege, MergeRoutePartsError,
};
use crate::kern::generate_fahrplan::generate_zug::generate_route::resolved_route::{ResolvedRoute, ResolvedRoutePart};
use crate::zusi::{eintraege_wf, FahrplanEintrag};
use vstd::prelude::*;

verus! {

/// Why the parts of a route could not be joined.
#[derive(Debug, Clone, PartialEq, Eq)]
pub enum GenerateRouteError {
    /// There is no part.
    NoRouteParts,
    /// Two consecutive parts could not be joined.
    MergeRoutePartsError { error: MergeRoutePartsError },
}

/// Where joining the parts has got to.
pub enum RouteProgress {
    /// A date-time would leave the range of date-times.
    OutOfRange,
    /// Two parts could not be joined.
    Failed(MergeRoutePartsError),
    /// The entries joined so far, and whether they have a time fix.
    Joined(Seq<FahrplanEintrag>, bool),
}

/// The first `k` parts joined one after the other.
pub open spec fn join_prefix(parts: Seq<ResolvedRoutePart>, k: nat) -> RouteProgress
    decreases k,
{
    if k <= 1 {
        RouteProgress::Joined(parts[0].fahrplan_eintraege@, parts[0].has_time_fix)
    } else {
        match join_prefix(parts, (k - 1) as nat) {
            RouteProgress::Joined(es, fix) => {
                let next = parts[k - 1];
                if fix && next.has_time_fix {
                    RouteProgress::Failed(MergeRoutePartsError::MoreThanOneTimeFix)
                } else if !can_merge_spec(es.last(), next.fahrplan_eintraege@[0]) {
                    RouteProgress::Failed(MergeRoutePartsError::NonConsecutiveRouteParts)
                } else {
                    match merged_eintraege(es, next.fahrplan_eintraege@, next.has_time_fix) {
                        Some(m) => RouteProgress::Joined(m, fix || next.has_time_fix),
                        None => RouteProgress::OutOfRange,
                    }
                }
            },
            other => other,
        }
    }
}

/// Every part has entries, all with date-times in range.
pub open spec fn parts_wf(parts: Seq<ResolvedRoutePart>) -> bool {
    forall|k: int| 0 <= k < parts.len() ==> (#[trigger] parts[k]).fahrplan_eintraege@.len() > 0 && eintraege_wf(parts[k].fahrplan_eintraege@)
}

proof fn lemma_join_stops(parts: Seq<ResolvedRoutePart>, k: nat, n: nat)
    requires
        1 <= k <= n,
        !(join_prefix(parts, k) is Joined),
    ensures
        join_prefix(parts, n) == join_prefix(parts, k),
    decreases n - k,
{
    if k < n {
        lemma_join_stops(parts, k, (n - 1) as nat);
    }
}

proof fn lemma_merged_nonempty(current: Seq<FahrplanEintrag>, new: Seq<FahrplanEintrag>, fix: bool)
    requires
        new.len() > 0,
        merged_eintraege(current, new, fix) is Some,
    ensures
        merged_eintraege(current, new, fix).unwrap().len() > 0,
{
}

/// Joins the parts in order, each onto what the parts before it gave (see
/// `merge_routes`); the route starts as the first part does. `None` where a date-time
/// would leave the range of date-times.
pub fn generate_route_checked(parts: Vec<ResolvedRoutePart>) -> (r: Option<Result<ResolvedRoute, GenerateRouteError>>)
    requires
        parts_wf(parts@),
    ensures
        parts@.len() == 0 ==> r == Some(Err::<ResolvedRoute, GenerateRouteError>(GenerateRouteError::NoRouteParts)),
        parts@.len() > 0 ==> match join_prefix(parts@, parts@.len()) {
            RouteProgress::Joined(es, _) => r matches Some(Ok(route)) && route.fahrplan_eintraege@ == es
                && route.start_data == parts@[0].start_data
                && route.fahrplan_zeilen == parts@[0].fahrplan_zeilen
                && route.mindest_bremshundertstel == parts@[0].mindest_bremshundertstel,
            RouteProgress::Failed(e) => r == Some(Err::<ResolvedRoute, GenerateRouteError>(GenerateRouteError::MergeRoutePartsError { error: e })),
            RouteProgress::OutOfRange => r is None,
        },
{
    let ghost ps = parts@;
    let n = parts.len();
    if n == 0 {
        return Some(Err(GenerateRouteError::NoRouteParts));
    }
    let mut rest = parts;
    let mut generated = rest.remove(0);
    assert(generated == ps[0]);
    let mut k: usize = 1;
    while rest.len() > 0
        invariant
            parts_wf(ps),
            ps == parts@,
            n == ps.len(),
            1 <= k <= n,
            rest@ == ps.subrange(k as int, n as int),
            join_prefix(ps, k as nat) == RouteProgress::Joined(generated.fahrplan_eintraege@, generated.has_time_fix),
            generated.fahrplan_eintraege@.len() > 0,
            eintraege_wf(generated.fahrplan_eintraege@),
            generated.start_data == ps[0].start_data,
            generated.fahrplan_zeilen == ps[0].fahrplan_zeilen,
            generated.mindest_bremshundertstel == ps[0].mindest_bremshundertstel,
        decreases rest@.len(),
    {
        let item = rest.remove(0);
        proof {
            assert(item == ps[k as int]);
            assert(ps[k as int].fahrplan_eintraege@.len() > 0 && eintraege_wf(ps[k as int].fahrplan_eintraege@));
            if !(join_prefix(ps, (k + 1) as nat) is Joined) {
                lemma_join_stops(ps, (k + 1) as nat, n as nat);
            }
            if join_prefix(ps, (k + 1) as nat) is Joined && !(generated.has_time_fix && item.has_time_fix)
                && can_merge_spec(generated.fahrplan_eintraege@.last(), item.fahrplan_eintraege@[0]) {
                lemma_merged_nonempty(generated.fahrplan_eintraege@, item.fahrplan_eintraege@, item.has_time_fix);
            }
        }
        match merge_routes_checked(generated, item) {
            Some(Ok(merged)) => {
                generated = merged;
            },
            Some(Err(error)) => {
                proof {
                    assert(join_prefix(ps, (k + 1) as nat) == RouteProgress::Failed(error));
                    lemma_join_stops(ps, (k + 1) as nat, n as nat);
                }
                return Some(Err(GenerateRouteError::MergeRoutePartsError { error }));
            },
            None => {
                proof {
                    assert(join_prefix(ps, (k + 1) as nat) == RouteProgress::OutOfRange);
                    lemma_join_stops(ps, (k + 1) as nat, n as nat);
                }
                return None;
            },
        }
        k = k + 1;
    }
    Some(Ok(ResolvedRoute::from_part(generated)))
}


/// Joins the parts in order as `generate_route_checked` does, where the joined
/// date-times stay in range.
pub fn generate_route(parts: Vec<ResolvedRoutePart>) -> (r: Result<ResolvedRoute, GenerateRouteError>)
    requires
        parts_wf(parts@),
        parts@.len() > 0 ==> !(join_prefix(parts@, parts@.len()) is OutOfRange),
    ensures
        parts@.len() == 0 ==> r == Err::<ResolvedRoute, GenerateRouteError>(GenerateRouteError::NoRouteParts),
        parts@.len() > 0 ==> match join_prefix(parts@, parts@.len()) {
            RouteProgress::Joined(es, _) => r matches Ok(route) && route.fahrplan_eintraege@ == es
                && route.start_data == parts@[0].start_data
                && route.fahrplan_zeilen == parts@[0].fahrplan_zeilen
                && route.mindest_bremshundertstel == parts@[0].mindest_bremshundertstel,
            RouteProgress::Failed(e) => r == Err::<ResolvedRoute, GenerateRouteError>(GenerateRouteError::MergeRoutePartsError { error: e }),
            RouteProgress::OutOfRange => false,
        },
{
    match generate_route_checked(parts) {
        Some(r) => r,
        // The requires rules this out.
        None => Err(GenerateRouteError::NoRouteParts),
    }
}

} // verus!
