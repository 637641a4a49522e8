//! Pairs the timetable entries that have a departure with the schedule entries of the
//! longest run of stations that both have in common.
use crate::input::schedule::{Schedule, ScheduleEntry};
use crate::kern::schedules::longest_common_coherent_subsequence::{
    common_suffix_len, is_longest_common_run, longest_common_coherent_subsequence, LongestCommonCoherentSubsequence,
};
use crate::text::str_views;
use crate::zusi::FahrplanEintrag;
use vstd::prelude::*;

verus! {

/// The positions of the entries that have a departure, in order.
pub open spec fn abfahrt_positions(e: Seq<FahrplanEintrag>) -> Seq<usize>
    decreases e.len(),
{
    if e.len() == 0 {
        Seq::empty()
    } else {
        let init = abfahrt_positions(e.drop_last());
        if e.last().abfahrt is Some {
            init.push((e.len() - 1) as usize)
        } else {
            init
        }
    }
}

/// The stations of the entries at `positions`.
pub open spec fn betriebsstellen_at(e: Seq<FahrplanEintrag>, positions: Seq<usize>) -> Seq<Seq<char>> {
    positions.map_values(|p: usize| e[p as int].betriebsstelle@)
}

/// The stations of a schedule.
pub open spec fn schedule_betriebsstellen(s: Seq<ScheduleEntry>) -> Seq<Seq<char>> {
    s.map_values(|x: ScheduleEntry| x.betriebsstelle@)
}

/// The longest common run of two sequences of stations.
pub open spec fn longest_run(s1: Seq<Seq<char>>, s2: Seq<Seq<char>>) -> LongestCommonCoherentSubsequence {
    choose|r: LongestCommonCoherentSubsequence| is_longest_common_run(s1, s2, r)
}

/// Each entry with a departure, by position, paired with the position of its schedule
/// entry: those inside the longest common run of stations get the schedule entry at
/// the same offset in the run, the others none.
pub open spec fn prepared_pairs(e: Seq<FahrplanEintrag>, s: Seq<ScheduleEntry>) -> Seq<(usize, Option<usize>)> {
    let positions = abfahrt_positions(e);
    let run = longest_run(betriebsstellen_at(e, positions), schedule_betriebsstellen(s));
    Seq::new(
        positions.len(),
        |k: int|
            (
                positions[k],
                if run.sec1_start <= k < run.sec1_start + run.len {
                    Some((run.sec2_start + k - run.sec1_start) as usize)
                } else {
                    None
                },
            ),
    )
}

/// There is one longest common run, as `is_longest_common_run` describes it.
pub proof fn lemma_longest_run_unique<T>(s1: Seq<T>, s2: Seq<T>, r1: LongestCommonCoherentSubsequence, r2: LongestCommonCoherentSubsequence)
    requires
        is_longest_common_run(s1, s2, r1),
        is_longest_common_run(s1, s2, r2),
    ensures
        r1 == r2,
{
    let e1 = r1.sec1_start + r1.len;
    let f1 = r1.sec2_start + r1.len;
    let e2 = r2.sec1_start + r2.len;
    let f2 = r2.sec2_start + r2.len;
    if r1.len > 0 {
        assert(common_suffix_len(s1, s2, e1, f1) <= r2.len);
    }
    if r2.len > 0 {
        assert(common_suffix_len(s1, s2, e2, f2) <= r1.len);
    }
    assert(r1.len == r2.len);
}

pub proof fn lemma_abfahrt_positions(e: Seq<FahrplanEintrag>)
    requires
        e.len() <= usize::MAX,
    ensures
        abfahrt_positions(e).len() <= e.len(),
        forall|k: int| 0 <= k < abfahrt_positions(e).len() ==> (#[trigger] abfahrt_positions(e)[k]) < e.len()
            && e[abfahrt_positions(e)[k] as int].abfahrt is Some,
        forall|k: int, m: int| 0 <= k < m < abfahrt_positions(e).len() ==> #[trigger] abfahrt_positions(e)[k] < #[trigger] abfahrt_positions(e)[m],
        forall|p: int| 0 <= p < e.len() && (#[trigger] e[p]).abfahrt is Some ==> exists|k: int| 0 <= k < abfahrt_positions(e).len() && abfahrt_positions(e)[k] == p,
    decreases e.len(),
{
    if e.len() > 0 {
        let init = e.drop_last();
        lemma_abfahrt_positions(init);
        assert forall|p: int| 0 <= p < e.len() && (#[trigger] e[p]).abfahrt is Some implies exists|k: int| 0 <= k < abfahrt_positions(e).len() && abfahrt_positions(e)[k] == p by {
            if p < e.len() - 1 {
                assert(init[p] == e[p]);
                let k = choose|k: int| 0 <= k < abfahrt_positions(init).len() && abfahrt_positions(init)[k] == p;
                assert(abfahrt_positions(e)[k] == p);
            } else {
                assert(e.last() == e[p]);
                assert(abfahrt_positions(e)[abfahrt_positions(e).len() - 1] == p);
            }
        }
    }
}

/// Pairs each entry with a departure (by its position in `fahrplan_eintraege`) with the
/// position of its schedule entry, if any: those in the longest run of stations that the
/// entries with a departure and the schedule have in common are paired in order.
pub fn prepare_entries(fahrplan_eintraege: &Vec<FahrplanEintrag>, schedule: &Schedule) -> (r: Vec<(usize, Option<usize>)>)
    ensures
        r@ == prepared_pairs(fahrplan_eintraege@, schedule.entries@),
        forall|k: int| 0 <= k < r@.len() ==> ((#[trigger] r@[k]).1 matches Some(si) ==> si < schedule.entries@.len()),
{
    let ghost e = fahrplan_eintraege@;
    let mut positions: Vec<usize> = Vec::new();
    let mut fahrplan_betriebsstellen: Vec<&str> = Vec::new();
    let mut i: usize = 0;
    while i < fahrplan_eintraege.len()
        invariant
            e == fahrplan_eintraege@,
            i <= e.len(),
            positions@ == abfahrt_positions(e.subrange(0, i as int)),
            fahrplan_betriebsstellen@.len() == positions@.len(),
            forall|k: int| 0 <= k < positions@.len() ==> (#[trigger] fahrplan_betriebsstellen@[k])@ == e[positions@[k] as int].betriebsstelle@,
        decreases e.len() - i,
    {
        proof {
            assert(e.subrange(0, i as int + 1).drop_last() =~= e.subrange(0, i as int));
        }
        if fahrplan_eintraege[i].abfahrt.is_some() {
            positions.push(i);
            fahrplan_betriebsstellen.push(fahrplan_eintraege[i].betriebsstelle.as_str());
        }
        i = i + 1;
    }
    assert(e.subrange(0, i as int) =~= e);
    let mut schedule_betriebsstellen_exec: Vec<&str> = Vec::new();
    let mut j: usize = 0;
    while j < schedule.entries.len()
        invariant
            j <= schedule.entries@.len(),
            schedule_betriebsstellen_exec@.len() == j,
            forall|k: int| 0 <= k < j ==> (#[trigger] schedule_betriebsstellen_exec@[k])@ == schedule.entries@[k].betriebsstelle@,
        decreases schedule.entries@.len() - j,
    {
        schedule_betriebsstellen_exec.push(schedule.entries[j].betriebsstelle.as_str());
        j = j + 1;
    }
    let ghost s1 = str_views(fahrplan_betriebsstellen@);
    let ghost s2 = str_views(schedule_betriebsstellen_exec@);
    assert(s1 =~= betriebsstellen_at(e, positions@));
    assert(s2 =~= schedule_betriebsstellen(schedule.entries@));
    let run = longest_common_coherent_subsequence(fahrplan_betriebsstellen, schedule_betriebsstellen_exec);
    proof {
        lemma_longest_run_unique(s1, s2, run, longest_run(s1, s2));
    }
    let schedule_len = schedule.entries.len();
    let mut r: Vec<(usize, Option<usize>)> = Vec::new();
    let mut k: usize = 0;
    while k < positions.len()
        invariant
            k <= positions@.len(),
            positions@ == abfahrt_positions(e),
            run == longest_run(betriebsstellen_at(e, positions@), schedule_betriebsstellen(schedule.entries@)),
            run.sec1_start + run.len <= positions@.len(),
            run.sec2_start + run.len <= schedule.entries@.len(),
            schedule_len == schedule.entries@.len(),
            r@ =~= prepared_pairs(e, schedule.entries@).subrange(0, k as int),
            forall|m: int| 0 <= m < r@.len() ==> ((#[trigger] r@[m]).1 matches Some(si) ==> si < schedule.entries@.len()),
        decreases positions@.len() - k,
    {
        let paired: Option<usize> = if run.sec1_start <= k && k < run.sec1_start + run.len {
            Some(run.sec2_start + (k - run.sec1_start))
        } else {
            None
        };
        r.push((positions[k], paired));
        k = k + 1;
    }
    r
}

} // verus!
