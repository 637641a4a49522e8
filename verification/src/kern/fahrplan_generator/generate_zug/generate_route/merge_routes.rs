//! Joins two consecutive routes into one.
use crate::kern::fahrplan_generator::generate_zug::generate_route::resolved_route::ResolvedRoute;
use crate::kern::generate_fahrplan::generate_zug::generate_route::merge_routes::{can_merge, can_merge_spec, get_time_diff_for_merge, merged_eintraege};
use crate::kern::shared::helpers::delay_fahrplan_eintraege;
use crate::zusi::{eintraege_wf, FahrplanEintrag};
use vstd::prelude::*;

verus! {

/// The last entry of the first route is not the same stop as the first entry of the
/// next one (see `can_merge_spec`).
#[derive(Debug, Clone, PartialEq, Eq)]
pub struct RoutesCanNotBeMerged;

/// What joining `current` and `new` gives: `new` moves so that its first stop lies at the
/// time of the last stop of `current`, which it replaces.
pub open spec fn merged_route_eintraege(current: Seq<FahrplanEintrag>, new: Seq<FahrplanEintrag>) -> Option<Seq<FahrplanEintrag>> {
    merged_eintraege(current, new, false)
}

/// Joins two consecutive routes: the last entry of `current` must be the same stop as the
/// first entry of `new`; `new` moves in time to meet it. The joined route keeps the
/// start of `current`.
pub fn merge_routes(current: ResolvedRoute, new: ResolvedRoute) -> (r: Result<ResolvedRoute, RoutesCanNotBeMerged>)
    requires
        current.fahrplan_eintraege@.len() > 0,
        new.fahrplan_eintraege@.len() > 0,
        eintraege_wf(current.fahrplan_eintraege@),
        eintraege_wf(new.fahrplan_eintraege@),
        can_merge_spec(current.fahrplan_eintraege@.last(), new.fahrplan_eintraege@[0])
            ==> merged_route_eintraege(current.fahrplan_eintraege@, new.fahrplan_eintraege@) is Some,
    ensures
        !can_merge_spec(current.fahrplan_eintraege@.last(), new.fahrplan_eintraege@[0])
            ==> r == Err::<ResolvedRoute, RoutesCanNotBeMerged>(RoutesCanNotBeMerged),
        can_merge_spec(current.fahrplan_eintraege@.last(), new.fahrplan_eintraege@[0])
            ==> (r matches Ok(route)
                && route.fahrplan_eintraege@ == merged_route_eintraege(current.fahrplan_eintraege@, new.fahrplan_eintraege@).unwrap()
                && route.aufgleis_fahrstrasse == current.aufgleis_fahrstrasse
                && eintraege_wf(route.fahrplan_eintraege@)),
{
    let mut current = current;
    let mut new = new;
    let last_index = current.fahrplan_eintraege.len() - 1;
    if can_merge(&current.fahrplan_eintraege[last_index], &new.fahrplan_eintraege[0]) {
        let ghost c = current.fahrplan_eintraege@;
        let current_last = current.fahrplan_eintraege.pop().unwrap();
        proof {
            assert(current_last == c.last());
            assert(current_last.wf());
            assert(new.fahrplan_eintraege@[0].wf());
            assert(current.fahrplan_eintraege@ =~= c.drop_last());
        }
        let time_diff = match get_time_diff_for_merge(&current_last, &new.fahrplan_eintraege[0]) {
            Ok(d) => d,
            Err(_) => 0,
        };
        delay_fahrplan_eintraege(&mut new.fahrplan_eintraege, time_diff);
        let mut appended = new.fahrplan_eintraege;
        current.fahrplan_eintraege.append(&mut appended);
        Ok(current)
    } else {
        Err(RoutesCanNotBeMerged)
    }
}

} // verus!
