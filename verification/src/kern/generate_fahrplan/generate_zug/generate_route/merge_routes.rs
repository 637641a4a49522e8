//! Joins two consecutive route parts into one.
use crate::kern::generate_fahrplan::generate_zug::generate_route::resolved_route::ResolvedRoutePart;
use crate::kern::shared::helpers::delay_fahrplan_eintraege;
use crate::zeit::in_range;
use crate::zusi::{eintraege_wf, shift_eintrag, shift_eintraege, shift_eintraege_defined, signal_texts, signale_equal, FahrplanEintrag};
use vstd::prelude::*;

verus! {

/// Why two route parts could not be joined.
#[derive(Debug, Clone, PartialEq, Eq)]
pub enum MergeRoutePartsError {
    /// The last entry of the first part does not match the first entry of the next part.
    NonConsecutiveRouteParts,
    /// Both parts have a time fix.
    MoreThanOneTimeFix,
}

impl MergeRoutePartsError {
    /// The message that describes the error.
    pub fn message(&self) -> (r: &'static str)
        ensures
            r@ == merge_route_parts_error_message(*self),
    {
        match self {
            MergeRoutePartsError::NonConsecutiveRouteParts => "The route parts aren't consecutive. The last entry of the previous part must match the first entry of the next part in some criteria: 'Betriebsstelle' must be equal, 'Abfahrt' needs to be set for both entries, 'Ankunft' must be set for either both or none of these entries.",
            MergeRoutePartsError::MoreThanOneTimeFix => "Multiple route parts with time fix were found, but only one is allowed.",
        }
    }
}

/// The message of each error.
pub open spec fn merge_route_parts_error_message(e: MergeRoutePartsError) -> Seq<char> {
    match e {
        MergeRoutePartsError::NonConsecutiveRouteParts => "The route parts aren't consecutive. The last entry of the previous part must match the first entry of the next part in some criteria: 'Betriebsstelle' must be equal, 'Abfahrt' needs to be set for both entries, 'Ankunft' must be set for either both or none of these entries."@,
        MergeRoutePartsError::MoreThanOneTimeFix => "Multiple route parts with time fix were found, but only one is allowed."@,
    }
}

/// The last entry of one part and the first of the next are the same stop: same station
/// and signals, both with a departure, and an arrival in both or in neither.
pub open spec fn can_merge_spec(first: FahrplanEintrag, second: FahrplanEintrag) -> bool {
    &&& first.betriebsstelle@ == second.betriebsstelle@
    &&& signal_texts(first.fahrplan_signal_eintraege@) == signal_texts(second.fahrplan_signal_eintraege@)
    &&& first.abfahrt is Some
    &&& second.abfahrt is Some
    &&& (first.ankunft is Some) == (second.ankunft is Some)
}

/// How far the second stop lies before the first: by arrivals where both have one, else
/// by departures.
pub open spec fn time_diff_for_merge(first: FahrplanEintrag, second: FahrplanEintrag) -> Option<int> {
    if first.ankunft is Some && second.ankunft is Some {
        Some(first.ankunft.unwrap() - second.ankunft.unwrap())
    } else if first.abfahrt is Some && second.abfahrt is Some {
        Some(first.abfahrt.unwrap() - second.abfahrt.unwrap())
    } else {
        None
    }
}

/// Neither arrival nor departure is given in both entries.
#[derive(Debug, Clone, PartialEq, Eq)]
pub struct NoTimes;

/// Whether the two entries are the same stop, as `can_merge_spec` says.
pub fn can_merge(first: &FahrplanEintrag, second: &FahrplanEintrag) -> (r: bool)
    ensures
        r == can_merge_spec(*first, *second),
{
    first.betriebsstelle == second.betriebsstelle
        && signale_equal(&first.fahrplan_signal_eintraege, &second.fahrplan_signal_eintraege)
        && first.abfahrt.is_some() && second.abfahrt.is_some()
        && first.ankunft.is_some() == second.ankunft.is_some()
}

/// How far the second stop lies before the first, as `time_diff_for_merge` says.
pub fn get_time_diff_for_merge(first: &FahrplanEintrag, second: &FahrplanEintrag) -> (r: Result<i64, NoTimes>)
    requires
        first.wf(),
        second.wf(),
    ensures
        r matches Ok(d) ==> time_diff_for_merge(*first, *second) == Some(d as int),
        r is Err ==> time_diff_for_merge(*first, *second) is None,
{
    if let (Some(a), Some(b)) = (first.ankunft, second.ankunft) {
        Ok(a - b)
    } else if let (Some(a), Some(b)) = (first.abfahrt, second.abfahrt) {
        Ok(a - b)
    } else {
        Err(NoTimes)
    }
}

/// What joining `current` and `new` gives: `None` where a date-time would leave the
/// range. The last entry of `current` is dropped for the first of `new`; the part
/// without time fix is shifted so that these two meet.
pub open spec fn merged_eintraege(current: Seq<FahrplanEintrag>, new: Seq<FahrplanEintrag>, new_has_time_fix: bool) -> Option<Seq<FahrplanEintrag>> {
    let d = time_diff_for_merge(current.last(), new[0]).unwrap();
    if new_has_time_fix {
        match shift_eintraege(current.drop_last(), -d) {
            Some(c) => Some(c + new),
            None => None,
        }
    } else {
        match shift_eintraege(new, d) {
            Some(n) => Some(current.drop_last() + n),
            None => None,
        }
    }
}

/// Joins two consecutive route parts: the last entry of `current` must be the same stop
/// as the first entry of `new` (see `can_merge_spec`); at most one of them may have a
/// time fix. The part without time fix moves so that the stop lies at the same time in
/// both; the joined part keeps the start of `current` and has a time fix if one had one.
/// `None` where a date-time would leave the range of date-times.
pub fn merge_routes_checked(current: ResolvedRoutePart, new: ResolvedRoutePart) -> (r: Option<Result<ResolvedRoutePart, MergeRoutePartsError>>)
    requires
        current.fahrplan_eintraege@.len() > 0,
        new.fahrplan_eintraege@.len() > 0,
        eintraege_wf(current.fahrplan_eintraege@),
        eintraege_wf(new.fahrplan_eintraege@),
    ensures
        current.has_time_fix && new.has_time_fix ==> r == Some(Err::<ResolvedRoutePart, MergeRoutePartsError>(MergeRoutePartsError::MoreThanOneTimeFix)),
        !(current.has_time_fix && new.has_time_fix) && !can_merge_spec(current.fahrplan_eintraege@.last(), new.fahrplan_eintraege@[0])
            ==> r == Some(Err::<ResolvedRoutePart, MergeRoutePartsError>(MergeRoutePartsError::NonConsecutiveRouteParts)),
        !(current.has_time_fix && new.has_time_fix) && can_merge_spec(current.fahrplan_eintraege@.last(), new.fahrplan_eintraege@[0])
            ==> match merged_eintraege(current.fahrplan_eintraege@, new.fahrplan_eintraege@, new.has_time_fix) {
                None => r is None,
                Some(m) => r matches Some(Ok(part)) && part.fahrplan_eintraege@ == m
                    && joined_moving_unfixed(current.fahrplan_eintraege@, new.fahrplan_eintraege@, new.has_time_fix, part.fahrplan_eintraege@)
                    && part.has_time_fix == (current.has_time_fix || new.has_time_fix)
                    && part.start_data == current.start_data
                    && part.fahrplan_zeilen == current.fahrplan_zeilen
                    && part.mindest_bremshundertstel == current.mindest_bremshundertstel
                    && eintraege_wf(part.fahrplan_eintraege@),
            },
{
    proof {
        let c = current.fahrplan_eintraege@;
        let n = new.fahrplan_eintraege@;
        if can_merge_spec(c.last(), n[0]) && merged_eintraege(c, n, new.has_time_fix) is Some {
            lemma_merge_moves_unfixed_part(c, n, new.has_time_fix);
        }
    }
    let mut current = current;
    let mut new = new;
    if current.has_time_fix && new.has_time_fix {
        return Some(Err(MergeRoutePartsError::MoreThanOneTimeFix));
    }
    let last_index = current.fahrplan_eintraege.len() - 1;
    if can_merge(&current.fahrplan_eintraege[last_index], &new.fahrplan_eintraege[0]) {
        let ghost c = current.fahrplan_eintraege@;
        let ghost n = new.fahrplan_eintraege@;
        let current_last = current.fahrplan_eintraege.pop().unwrap();
        proof {
            assert(current_last == c.last());
            assert(current_last.wf());
            assert(n[0].wf());
            assert(current.fahrplan_eintraege@ =~= c.drop_last());
        }
        let time_diff = match get_time_diff_for_merge(&current_last, &new.fahrplan_eintraege[0]) {
            Ok(d) => d,
            Err(_) => 0,
        };
        if new.has_time_fix {
            if !shift_eintraege_defined(&current.fahrplan_eintraege, -time_diff) {
                return None;
            }
            current.has_time_fix = true;
            delay_fahrplan_eintraege(&mut current.fahrplan_eintraege, -time_diff);
        } else {
            if !shift_eintraege_defined(&new.fahrplan_eintraege, time_diff) {
                return None;
            }
            delay_fahrplan_eintraege(&mut new.fahrplan_eintraege, time_diff);
        }
        let mut appended = new.fahrplan_eintraege;
        current.fahrplan_eintraege.append(&mut appended);
        Some(Ok(current))
    } else {
        Some(Err(MergeRoutePartsError::NonConsecutiveRouteParts))
    }
}

/// Joins two consecutive route parts as `merge_routes_checked` does, where the joined
/// date-times stay in range.
pub fn merge_routes(current: ResolvedRoutePart, new: ResolvedRoutePart) -> (r: Result<ResolvedRoutePart, MergeRoutePartsError>)
    requires
        current.fahrplan_eintraege@.len() > 0,
        new.fahrplan_eintraege@.len() > 0,
        eintraege_wf(current.fahrplan_eintraege@),
        eintraege_wf(new.fahrplan_eintraege@),
        can_merge_spec(current.fahrplan_eintraege@.last(), new.fahrplan_eintraege@[0]) && !(current.has_time_fix && new.has_time_fix)
            ==> merged_eintraege(current.fahrplan_eintraege@, new.fahrplan_eintraege@, new.has_time_fix) is Some,
    ensures
        current.has_time_fix && new.has_time_fix ==> r == Err::<ResolvedRoutePart, MergeRoutePartsError>(MergeRoutePartsError::MoreThanOneTimeFix),
        !(current.has_time_fix && new.has_time_fix) && !can_merge_spec(current.fahrplan_eintraege@.last(), new.fahrplan_eintraege@[0])
            ==> r == Err::<ResolvedRoutePart, MergeRoutePartsError>(MergeRoutePartsError::NonConsecutiveRouteParts),
        !(current.has_time_fix && new.has_time_fix) && can_merge_spec(current.fahrplan_eintraege@.last(), new.fahrplan_eintraege@[0])
            ==> (r matches Ok(part) && part.fahrplan_eintraege@ == merged_eintraege(current.fahrplan_eintraege@, new.fahrplan_eintraege@, new.has_time_fix).unwrap()
                && joined_moving_unfixed(current.fahrplan_eintraege@, new.fahrplan_eintraege@, new.has_time_fix, part.fahrplan_eintraege@)
                && part.has_time_fix == (current.has_time_fix || new.has_time_fix)
                && part.start_data == current.start_data
                && part.fahrplan_zeilen == current.fahrplan_zeilen
                && part.mindest_bremshundertstel == current.mindest_bremshundertstel
                && eintraege_wf(part.fahrplan_eintraege@)),
{
    match merge_routes_checked(current, new) {
        Some(r) => r,
        // The requires rules this out.
        None => Err(MergeRoutePartsError::NonConsecutiveRouteParts),
    }
}

/// Joining two parts keeps the part with the time fix as it is: with the time fix on
/// `new`, its entries stand unchanged at the end; without, the entries of `current`
/// before its last stand unchanged at the start and the shared stop keeps the arrival
/// of `current` (its departure, where it has no arrival). The joined part has one entry fewer than both together.
pub proof fn lemma_merge_keeps_fixed_part(current: Seq<FahrplanEintrag>, new: Seq<FahrplanEintrag>, new_has_time_fix: bool)
    requires
        current.len() > 0,
        new.len() > 0,
        can_merge_spec(current.last(), new[0]),
        merged_eintraege(current, new, new_has_time_fix) is Some,
    ensures
        ({
            let m = merged_eintraege(current, new, new_has_time_fix).unwrap();
            &&& m.len() == current.len() + new.len() - 1
            &&& new_has_time_fix ==> m.subrange(current.len() - 1, m.len() as int) == new
            &&& !new_has_time_fix ==> m.subrange(0, current.len() - 1) == current.drop_last()
            &&& !new_has_time_fix && current.last().ankunft is Some ==> m[current.len() - 1].ankunft == current.last().ankunft
            &&& !new_has_time_fix && current.last().ankunft is None ==> m[current.len() - 1].abfahrt == current.last().abfahrt
        }),
{
    let m = merged_eintraege(current, new, new_has_time_fix).unwrap();
    let d = time_diff_for_merge(current.last(), new[0]).unwrap();
    if new_has_time_fix {
        let c = shift_eintraege(current.drop_last(), -d).unwrap();
        assert(m == c + new);
        assert(m.subrange(current.len() - 1, m.len() as int) =~= new);
    } else {
        let n = shift_eintraege(new, d).unwrap();
        assert(m == current.drop_last() + n);
        assert(m.subrange(0, current.len() - 1) =~= current.drop_last());
        assert(shift_eintrag(new[0], d) is Some);
        assert(m[current.len() - 1] == n[0]);
    }
}


/// `b` is the entry `a` moved in time by `delta` seconds: the same station and signals,
/// and each of arrival and departure present in both or in neither, `delta` later in `b`.
pub open spec fn moved_by(a: FahrplanEintrag, b: FahrplanEintrag, delta: int) -> bool {
    &&& b.betriebsstelle == a.betriebsstelle
    &&& b.fahrplan_signal_eintraege == a.fahrplan_signal_eintraege
    &&& match (a.ankunft, b.ankunft) {
        (Some(x), Some(y)) => y == x + delta,
        (None, None) => true,
        _ => false,
    }
    &&& match (a.abfahrt, b.abfahrt) {
        (Some(x), Some(y)) => y == x + delta,
        (None, None) => true,
        _ => false,
    }
}

/// `m` is `current` and `new` joined at their shared stop, the part without the time fix
/// moved by one amount, arrivals and departures alike, the other left as it is. The
/// amount is how far the shared stop of `current` (its last entry) lies after that of
/// `new` (its first entry): by arrivals where both have one, else by departures. With the
/// time fix on `new`, every entry of `current` before its last moves back by it and `new`
/// follows unchanged; without, the entries of `current` before its last stay and every
/// entry of `new` moves forward by it.
pub open spec fn joined_moving_unfixed(current: Seq<FahrplanEintrag>, new: Seq<FahrplanEintrag>, new_has_time_fix: bool, m: Seq<FahrplanEintrag>) -> bool {
    let c = current.len() - 1;
    let delta = if current.last().ankunft is Some && new[0].ankunft is Some {
        current.last().ankunft.unwrap() - new[0].ankunft.unwrap()
    } else {
        current.last().abfahrt.unwrap() - new[0].abfahrt.unwrap()
    };
    &&& m.len() == current.len() + new.len() - 1
    &&& new_has_time_fix ==> (forall|k: int| 0 <= k < c ==> #[trigger] moved_by(current[k], m[k], -delta))
    &&& new_has_time_fix ==> (forall|j: int| 0 <= j < new.len() ==> #[trigger] m[c + j] == new[j])
    &&& !new_has_time_fix ==> (forall|k: int| 0 <= k < c ==> #[trigger] m[k] == current[k])
    &&& !new_has_time_fix ==> (forall|j: int| 0 <= j < new.len() ==> #[trigger] moved_by(new[j], m[c + j], delta))
}

/// Joining two parts moves the whole part without the time fix by one amount, arrivals
/// and departures alike, and leaves the other as it is (see `joined_moving_unfixed`).
pub proof fn lemma_merge_moves_unfixed_part(current: Seq<FahrplanEintrag>, new: Seq<FahrplanEintrag>, new_has_time_fix: bool)
    requires
        current.len() > 0,
        new.len() > 0,
        can_merge_spec(current.last(), new[0]),
        merged_eintraege(current, new, new_has_time_fix) is Some,
    ensures
        joined_moving_unfixed(current, new, new_has_time_fix, merged_eintraege(current, new, new_has_time_fix).unwrap()),
{
    let m = merged_eintraege(current, new, new_has_time_fix).unwrap();
    let c = current.len() - 1;
    let d = time_diff_for_merge(current.last(), new[0]).unwrap();
    if new_has_time_fix {
        let sh = shift_eintraege(current.drop_last(), -d).unwrap();
        assert(m == sh + new);
        assert forall|k: int| 0 <= k < c implies #[trigger] moved_by(current[k], m[k], -d) by {
            assert(current.drop_last()[k] == current[k]);
            assert(shift_eintrag(current.drop_last()[k], -d) is Some);
            assert(m[k] == sh[k]);
        }
        assert forall|j: int| 0 <= j < new.len() implies #[trigger] m[c + j] == new[j] by {
            assert(m[c + j] == (sh + new)[sh.len() + j]);
        }
    } else {
        let sh = shift_eintraege(new, d).unwrap();
        assert(m == current.drop_last() + sh);
        assert forall|k: int| 0 <= k < c implies #[trigger] m[k] == current[k] by {
            assert(m[k] == current.drop_last()[k]);
        }
        assert forall|j: int| 0 <= j < new.len() implies #[trigger] moved_by(new[j], m[c + j], d) by {
            assert(shift_eintrag(new[j], d) is Some);
            assert(m[c + j] == sh[j]);
        }
    }
}

/// Shifting entries by `d` seconds moves each of them by `d`, arrivals and departures
/// alike, and keeps their number.
pub proof fn lemma_shift_eintraege_moves(es: Seq<FahrplanEintrag>, d: int)
    ensures
        shift_eintraege(es, d) matches Some(s) ==> s.len() == es.len() && forall|k: int| 0 <= k < es.len() ==> #[trigger] moved_by(es[k], s[k], d),
{
    if let Some(s) = shift_eintraege(es, d) {
        assert forall|k: int| 0 <= k < es.len() implies #[trigger] moved_by(es[k], s[k], d) by {
            assert(shift_eintrag(es[k], d) is Some);
        }
    }
}
} // verus!
