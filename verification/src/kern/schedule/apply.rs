//! The first way of applying a schedule: entries outside the common run of stations
//! follow the previous departure, and a time fix is only checked.
use crate::input::schedule::{Schedule, ScheduleEntry, TimeFix};
use crate::kern::schedules::prepare_entries::{lemma_abfahrt_positions, prepare_entries, prepared_pairs};
use crate::zeit::{in_range, opt_in_range};
use crate::zusi::{eintraege_wf, set_times, with_times, FahrplanEintrag};
use vstd::prelude::*;

verus! {

/// Why a schedule could not be applied.
#[derive(Debug, Clone, PartialEq, Eq)]
pub enum ApplyScheduleError {
    /// A stop time is given for an entry without arrival.
    CannotApplyStopTime { betriebsstelle: String },
    /// More than one entry fixes its time.
    TimeFixIsAllowedOnlyOnce,
}

/// Where the application of a schedule has got to.
pub enum ApplyProgress {
    /// A date-time would leave the range of date-times.
    OutOfRange,
    /// It stopped with an error; the entries as they were then.
    Failed(Seq<FahrplanEintrag>, ApplyScheduleError),
    /// It goes on: the entries so far, the previous new departure, how much the previous
    /// departure moved, and the difference that a time fix found.
    Running(Seq<FahrplanEintrag>, Option<i64>, i64, Option<i64>),
}

/// One entry with a departure, paired with its schedule entry or none, is handled.
pub open spec fn apply_step(
    es: Seq<FahrplanEintrag>,
    sched: Seq<ScheduleEntry>,
    item: (usize, Option<usize>),
    previous_abfahrt: Option<i64>,
    previous_change: i64,
    time_fix_diff: Option<i64>,
) -> ApplyProgress {
    let i = item.0 as int;
    let e = es[i];
    let abfahrt = e.abfahrt.unwrap() as int;
    let is_stop = e.ankunft is Some;
    let ankunft = if is_stop { e.ankunft.unwrap() as int } else { abfahrt };
    let entry = match item.1 {
        Some(si) => Some(sched[si as int]),
        None => None,
    };
    if (entry matches Some(s) && s.stop_time is Some) && !is_stop {
        ApplyProgress::Failed(es, ApplyScheduleError::CannotApplyStopTime { betriebsstelle: e.betriebsstelle })
    } else {
        let stop_time = match entry {
            Some(s) => if s.stop_time is Some && is_stop { s.stop_time.unwrap() as int } else { abfahrt - ankunft },
            None => abfahrt - ankunft,
        };
        // the moved arrival is computed whenever there is a previous departure
        let moved = ankunft + previous_change;
        if previous_abfahrt is Some && !in_range(moved) {
            ApplyProgress::OutOfRange
        } else {
            let new_ankunft = match previous_abfahrt {
                None => ankunft,
                Some(pa) => match entry {
                    Some(s) => pa + s.driving_time,
                    None => moved,
                },
            };
            let new_abfahrt = new_ankunft + stop_time;
            if !in_range(new_ankunft) || !in_range(new_abfahrt) {
                ApplyProgress::OutOfRange
            } else {
                let es2 = es.update(
                    i,
                    with_times(e, if is_stop { Some(new_ankunft as i64) } else { e.ankunft }, Some(new_abfahrt as i64)),
                );
                let (pa2, ch2) = if entry is Some {
                    (Some(new_abfahrt as i64), (new_abfahrt - abfahrt) as i64)
                } else {
                    (None, 0i64)
                };
                match entry {
                    Some(s) => match s.time_fix {
                        None => ApplyProgress::Running(es2, pa2, ch2, time_fix_diff),
                        Some(fix) => match time_fix_diff {
                            Some(_) => ApplyProgress::Failed(es2, ApplyScheduleError::TimeFixIsAllowedOnlyOnce),
                            None => ApplyProgress::Running(
                                es2,
                                pa2,
                                ch2,
                                Some(
                                    match fix {
                                        TimeFix::Ankunft => (ankunft - new_ankunft) as i64,
                                        TimeFix::Abfahrt => (abfahrt - new_abfahrt) as i64,
                                    },
                                ),
                            ),
                        },
                    },
                    None => ApplyProgress::Running(es2, pa2, ch2, time_fix_diff),
                }
            }
        }
    }
}

/// The first `k` paired entries are handled, in order.
pub open spec fn apply_prefix(
    entries: Seq<FahrplanEintrag>,
    sched: Seq<ScheduleEntry>,
    prepared: Seq<(usize, Option<usize>)>,
    k: nat,
) -> ApplyProgress
    decreases k,
{
    if k == 0 {
        ApplyProgress::Running(entries, None, 0, None)
    } else {
        match apply_prefix(entries, sched, prepared, (k - 1) as nat) {
            ApplyProgress::Running(es, pa, ch, tfd) => apply_step(es, sched, prepared[k - 1], pa, ch, tfd),
            other => other,
        }
    }
}

/// What applying `sched` to `entries` leads to.
pub open spec fn apply_progress(entries: Seq<FahrplanEintrag>, sched: Seq<ScheduleEntry>) -> ApplyProgress {
    let prepared = prepared_pairs(entries, sched);
    apply_prefix(entries, sched, prepared, prepared.len())
}

proof fn lemma_prefix_stops(
    entries: Seq<FahrplanEintrag>,
    sched: Seq<ScheduleEntry>,
    prepared: Seq<(usize, Option<usize>)>,
    k: nat,
    n: nat,
)
    requires
        k <= n,
        !(apply_prefix(entries, sched, prepared, k) is Running),
    ensures
        apply_prefix(entries, sched, prepared, n) == apply_prefix(entries, sched, prepared, k),
    decreases n - k,
{
    if k < n {
        lemma_prefix_stops(entries, sched, prepared, k, (n - 1) as nat);
    }
}

spec fn positions_valid(es: Seq<FahrplanEintrag>, prepared: Seq<(usize, Option<usize>)>, sched_len: nat) -> bool {
    &&& forall|k: int| 0 <= k < prepared.len() ==> (#[trigger] prepared[k]).0 < es.len() && es[prepared[k].0 as int].abfahrt is Some
    &&& forall|k: int| 0 <= k < prepared.len() ==> ((#[trigger] prepared[k]).1 matches Some(si) ==> si < sched_len)
}

/// Applies the schedule's driving and stop times to the entries that have a departure,
/// from the longest run of stations that they have in common with the schedule; an
/// entry outside that run keeps its times, moved as the departure before it moved. A
/// time fix is checked to occur once; the entries stay as far as they were changed when
/// an error stops the application.
pub fn apply(fahrplan_eintraege: &mut Vec<FahrplanEintrag>, schedule: &Schedule) -> (r: Result<(), ApplyScheduleError>)
    requires
        eintraege_wf(old(fahrplan_eintraege)@),
        !(apply_progress(old(fahrplan_eintraege)@, schedule.entries@) is OutOfRange),
    ensures
        match apply_progress(old(fahrplan_eintraege)@, schedule.entries@) {
            ApplyProgress::Running(es, _, _, _) => r is Ok && final(fahrplan_eintraege)@ == es,
            ApplyProgress::Failed(es, e) => r == Err::<(), ApplyScheduleError>(e) && final(fahrplan_eintraege)@ == es,
            ApplyProgress::OutOfRange => false,
        },
{
    let ghost entries = fahrplan_eintraege@;
    let ghost sched = schedule.entries@;
    let _len = fahrplan_eintraege.len();
    let prepared = prepare_entries(fahrplan_eintraege, schedule);
    let ghost n = prepared@.len();
    proof {
        lemma_abfahrt_positions(entries);
    }
    let mut previous_abfahrt: Option<i64> = None;
    let mut previous_change: i64 = 0;
    let mut time_fix_diff: Option<i64> = None;
    let mut k: usize = 0;
    while k < prepared.len()
        invariant
            entries == old(fahrplan_eintraege)@,
            sched == schedule.entries@,
            prepared@ == prepared_pairs(entries, sched),
            n == prepared@.len(),
            k <= n,
            !(apply_progress(entries, sched) is OutOfRange),
            apply_prefix(entries, sched, prepared@, k as nat)
                == ApplyProgress::Running(fahrplan_eintraege@, previous_abfahrt, previous_change, time_fix_diff),
            positions_valid(fahrplan_eintraege@, prepared@, sched.len()),
            eintraege_wf(fahrplan_eintraege@),
            opt_in_range(previous_abfahrt),
        decreases n - k,
    {
        let ghost es = fahrplan_eintraege@;
        let (i, paired) = prepared[k];
        proof {
            let next = apply_prefix(entries, sched, prepared@, (k + 1) as nat);
            assert(next == apply_step(es, sched, prepared@[k as int], previous_abfahrt, previous_change, time_fix_diff));
            if !(next is Running) {
                lemma_prefix_stops(entries, sched, prepared@, (k + 1) as nat, n);
            }
            assert(es[i as int].wf());
        }
        let abfahrt = match fahrplan_eintraege[i].abfahrt {
            Some(a) => a,
            None => 0,
        };
        let (ankunft, is_stop) = match fahrplan_eintraege[i].ankunft {
            None => (abfahrt, false),
            Some(a) => (a, true),
        };
        let entry: Option<&ScheduleEntry> = match paired {
            Some(si) => Some(&schedule.entries[si]),
            None => None,
        };
        let stop_time = match entry {
            Some(e) => match (e.stop_time, is_stop) {
                (Some(stop_time), true) => stop_time,
                (Some(_), false) => {
                    return Err(ApplyScheduleError::CannotApplyStopTime { betriebsstelle: fahrplan_eintraege[i].betriebsstelle.clone() });
                },
                (None, _) => abfahrt - ankunft,
            },
            None => abfahrt - ankunft,
        };
        let new_ankunft = match previous_abfahrt {
            None => ankunft,
            Some(pa) => {
                let moved = ankunft + previous_change;
                match entry {
                    Some(e) => pa + e.driving_time,
                    None => moved,
                }
            },
        };
        let new_abfahrt = new_ankunft + stop_time;
        let old_ankunft = fahrplan_eintraege[i].ankunft;
        set_times(fahrplan_eintraege, i, if is_stop { Some(new_ankunft) } else { old_ankunft }, Some(new_abfahrt));
        if entry.is_some() {
            previous_abfahrt = Some(new_abfahrt);
            previous_change = new_abfahrt - abfahrt;
        } else {
            previous_abfahrt = None;
            previous_change = 0;
        }
        match entry {
            Some(e) => match (e.time_fix, time_fix_diff) {
                (Some(TimeFix::Ankunft), None) => {
                    time_fix_diff = Some(ankunft - new_ankunft);
                },
                (Some(TimeFix::Abfahrt), None) => {
                    time_fix_diff = Some(abfahrt - new_abfahrt);
                },
                (Some(_), Some(_)) => {
                    return Err(ApplyScheduleError::TimeFixIsAllowedOnlyOnce);
                },
                (None, _) => {},
            },
            None => {},
        }
        k = k + 1;
    }
    Ok(())
}

} // verus!
