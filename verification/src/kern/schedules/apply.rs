//! Applies a schedule's driving and stop times to a train's timetable.
use crate::input::schedule::{Schedule, ScheduleEntry, TimeFix};
use crate::kern::schedules::prepare_entries::{lemma_abfahrt_positions, prepare_entries, prepared_pairs, abfahrt_positions};
use crate::zeit::{in_range, is_date_time, opt_in_range};
use crate::zusi::{eintraege_wf, set_times, shift_eintrag, shift_time, shift_time_checked, with_times, FahrplanEintrag};
use vstd::prelude::*;

verus! {

/// Why a schedule could not be applied.
#[derive(Debug, Clone, PartialEq, Eq)]
pub enum ApplyScheduleError {
    /// A stop time is given for an entry without arrival.
    CannotApplyStopTime { betriebsstelle: String },
    /// More than one entry fixes its time.
    TimeFixIsAllowedOnlyOnce,
}

/// Where the application of a schedule has got to.
pub enum ScheduleProgress {
    /// A date-time would leave the range of date-times.
    OutOfRange,
    /// It stopped with an error; the entries as they were then.
    Failed(Seq<FahrplanEintrag>, ApplyScheduleError),
    /// It goes on: the entries so far, the previous new departure, how much the previous
    /// departure moved, the shift that a time fix asks for, and whether an entry with a
    /// time fix has been handled.
    Running(Seq<FahrplanEintrag>, Option<i64>, i64, Option<i64>, bool),
}

/// One entry with a departure, paired with its schedule entry or none, is handled.
pub open spec fn apply_step(
    es: Seq<FahrplanEintrag>,
    sched: Seq<ScheduleEntry>,
    item: (usize, Option<usize>),
    previous_abfahrt: Option<i64>,
    previous_change: i64,
    time_fix_diff: Option<i64>,
    time_fix_seen: bool,
) -> ScheduleProgress {
    let i = item.0 as int;
    let e = es[i];
    match item.1 {
        None => match shift_eintrag(e, previous_change as int) {
            Some(e2) => ScheduleProgress::Running(es.update(i, e2), None, 0, time_fix_diff, time_fix_seen),
            None => ScheduleProgress::OutOfRange,
        },
        Some(si) => {
            let s = sched[si as int];
            let abfahrt = e.abfahrt.unwrap() as int;
            let is_stop = e.ankunft is Some;
            let ankunft = if is_stop { e.ankunft.unwrap() as int } else { abfahrt };
            if s.stop_time is Some && !is_stop {
                ScheduleProgress::Failed(es, ApplyScheduleError::CannotApplyStopTime { betriebsstelle: e.betriebsstelle })
            } else {
                let stop_time = if s.stop_time is Some { s.stop_time.unwrap() as int } else { abfahrt - ankunft };
                let new_ankunft = match previous_abfahrt {
                    None => ankunft,
                    Some(pa) => pa + s.driving_time,
                };
                let new_abfahrt = new_ankunft + stop_time;
                if !in_range(new_ankunft) || !in_range(new_abfahrt) {
                    ScheduleProgress::OutOfRange
                } else {
                    let e2 = with_times(
                        e,
                        if is_stop { Some(new_ankunft as i64) } else { e.ankunft },
                        Some(new_abfahrt as i64),
                    );
                    let es2 = es.update(i, e2);
                    let change = (new_abfahrt - abfahrt) as i64;
                    match s.time_fix {
                        None => ScheduleProgress::Running(es2, Some(new_abfahrt as i64), change, time_fix_diff, time_fix_seen),
                        Some(fix) => if time_fix_seen {
                            ScheduleProgress::Failed(es2, ApplyScheduleError::TimeFixIsAllowedOnlyOnce)
                        } else {
                            let diff = match fix {
                                TimeFix::Ankunft => if ankunft != new_ankunft { Some((ankunft - new_ankunft) as i64) } else { None },
                                TimeFix::Abfahrt => if abfahrt != new_abfahrt { Some((abfahrt - new_abfahrt) as i64) } else { None },
                            };
                            ScheduleProgress::Running(es2, Some(new_abfahrt as i64), change, diff, true)
                        },
                    }
                }
            }
        },
    }
}

/// The first `k` paired entries are handled, in order.
pub open spec fn apply_prefix(
    entries: Seq<FahrplanEintrag>,
    sched: Seq<ScheduleEntry>,
    prepared: Seq<(usize, Option<usize>)>,
    k: nat,
) -> ScheduleProgress
    decreases k,
{
    if k == 0 {
        ScheduleProgress::Running(entries, None, 0, None, false)
    } else {
        match apply_prefix(entries, sched, prepared, (k - 1) as nat) {
            ScheduleProgress::Running(es, pa, ch, tfd, seen) => apply_step(es, sched, prepared[k - 1], pa, ch, tfd, seen),
            other => other,
        }
    }
}

/// The entries at the first `k` positions of `prepared` shifted by `d` seconds; `None`
/// when a date-time leaves the range.
pub open spec fn shift_prepared(es: Seq<FahrplanEintrag>, prepared: Seq<(usize, Option<usize>)>, d: int, k: nat) -> Option<Seq<FahrplanEintrag>>
    decreases k,
{
    if k == 0 {
        Some(es)
    } else {
        match shift_prepared(es, prepared, d, (k - 1) as nat) {
            None => None,
            Some(es2) => {
                let i = prepared[k - 1].0 as int;
                match shift_eintrag(es2[i], d) {
                    Some(e2) => Some(es2.update(i, e2)),
                    None => None,
                }
            },
        }
    }
}

/// What applying `sched` to `entries` leads to: all paired entries are handled; if a
/// time fix asked for a shift, all entries with a departure are then shifted by it.
pub open spec fn apply_schedule_progress(entries: Seq<FahrplanEintrag>, sched: Seq<ScheduleEntry>) -> ScheduleProgress {
    let prepared = prepared_pairs(entries, sched);
    match apply_prefix(entries, sched, prepared, prepared.len()) {
        ScheduleProgress::Running(es, pa, ch, Some(d), seen) => match shift_prepared(es, prepared, d as int, prepared.len()) {
            Some(es2) => ScheduleProgress::Running(es2, pa, ch, Some(d), seen),
            None => ScheduleProgress::OutOfRange,
        },
        other => other,
    }
}

/// Applying `sched` to `entries` leaves all date-times in range.
pub open spec fn apply_schedule_defined(entries: Seq<FahrplanEintrag>, sched: Seq<ScheduleEntry>) -> bool {
    !(apply_schedule_progress(entries, sched) is OutOfRange)
}

proof fn lemma_prefix_stops(
    entries: Seq<FahrplanEintrag>,
    sched: Seq<ScheduleEntry>,
    prepared: Seq<(usize, Option<usize>)>,
    k: nat,
    n: nat,
)
    requires
        k <= n,
        !(apply_prefix(entries, sched, prepared, k) is Running),
    ensures
        apply_prefix(entries, sched, prepared, n) == apply_prefix(entries, sched, prepared, k),
    decreases n - k,
{
    if k < n {
        lemma_prefix_stops(entries, sched, prepared, k, (n - 1) as nat);
    }
}

proof fn lemma_shift_stops(es: Seq<FahrplanEintrag>, prepared: Seq<(usize, Option<usize>)>, d: int, k: nat, n: nat)
    requires
        k <= n,
        shift_prepared(es, prepared, d, k) is None,
    ensures
        shift_prepared(es, prepared, d, n) is None,
    decreases n - k,
{
    if k < n {
        lemma_shift_stops(es, prepared, d, k, (n - 1) as nat);
    }
}

/// The invariant of the positions that `prepared` holds.
pub open spec fn positions_valid(es: Seq<FahrplanEintrag>, prepared: Seq<(usize, Option<usize>)>, sched_len: nat) -> bool {
    &&& forall|k: int| 0 <= k < prepared.len() ==> (#[trigger] prepared[k]).0 < es.len() && es[prepared[k].0 as int].abfahrt is Some
    &&& forall|k: int| 0 <= k < prepared.len() ==> ((#[trigger] prepared[k]).1 matches Some(si) ==> si < sched_len)
}

proof fn lemma_step_keeps(
    es: Seq<FahrplanEintrag>,
    sched: Seq<ScheduleEntry>,
    prepared: Seq<(usize, Option<usize>)>,
    k: int,
    pa: Option<i64>,
    ch: i64,
    tfd: Option<i64>,
    seen: bool,
)
    requires
        0 <= k < prepared.len(),
        positions_valid(es, prepared, sched.len()),
        eintraege_wf(es),
    ensures
        apply_step(es, sched, prepared[k], pa, ch, tfd, seen) matches ScheduleProgress::Running(es2, _, _, _, _) ==> positions_valid(es2, prepared, sched.len()) && eintraege_wf(es2),
        apply_step(es, sched, prepared[k], pa, ch, tfd, seen) matches ScheduleProgress::Failed(es2, _) ==> positions_valid(es2, prepared, sched.len()) && eintraege_wf(es2),
{
}

/// When the train arrives at the station of an entry: its arrival where it has one,
/// else its departure.
pub open spec fn arrival_time(e: FahrplanEintrag) -> int {
    if e.ankunft is Some { e.ankunft.unwrap() as int } else { e.abfahrt.unwrap() as int }
}

/// An entry with a departure that is handled with its schedule entry arrives at the
/// previous new departure plus the driving time (where the run starts with it, at the
/// time it arrived before), and departs after the stop time of the schedule entry, or
/// after the stop it had where the schedule entry gives none. The next entry is handled
/// from its new departure, and no other entry changes.
pub proof fn lemma_step_times(
    es: Seq<FahrplanEintrag>,
    sched: Seq<ScheduleEntry>,
    i: usize,
    si: usize,
    pa: Option<i64>,
    ch: i64,
    tfd: Option<i64>,
    seen: bool,
)
    requires
        i < es.len(),
        es[i as int].abfahrt is Some,
    ensures
        apply_step(es, sched, (i, Some(si)), pa, ch, tfd, seen) matches ScheduleProgress::Running(es2, pa2, _, _, _) ==> {
            &&& es2.len() == es.len()
            &&& es2[i as int].abfahrt is Some
            &&& pa2 == es2[i as int].abfahrt
            &&& arrival_time(es2[i as int]) == (match pa {
                None => arrival_time(es[i as int]),
                Some(p) => p + sched[si as int].driving_time,
            })
            &&& es2[i as int].abfahrt.unwrap() == arrival_time(es2[i as int]) + (match sched[si as int].stop_time {
                Some(st) => st as int,
                None => es[i as int].abfahrt.unwrap() - arrival_time(es[i as int]),
            })
            &&& forall|j: int| 0 <= j < es.len() && j != i ==> es2[j] == es[j]
        },
{
}

/// `es` is `es0` with at most times changed, and only those of entries with a departure:
/// every entry keeps its station, its signals and which of arrival and departure it
/// has; an entry without departure stays as it is.
pub open spec fn keeps_shape(es0: Seq<FahrplanEintrag>, es: Seq<FahrplanEintrag>) -> bool {
    &&& es.len() == es0.len()
    &&& forall|k: int| 0 <= k < es0.len() ==> {
        &&& (#[trigger] es[k]).betriebsstelle == es0[k].betriebsstelle
        &&& es[k].fahrplan_signal_eintraege == es0[k].fahrplan_signal_eintraege
        &&& (es[k].ankunft is Some) == (es0[k].ankunft is Some)
        &&& (es[k].abfahrt is Some) == (es0[k].abfahrt is Some)
        &&& (es0[k].abfahrt is None ==> es[k] == es0[k])
    }
}

proof fn lemma_keeps_shape_update(es0: Seq<FahrplanEintrag>, es: Seq<FahrplanEintrag>, i: int, e2: FahrplanEintrag)
    requires
        keeps_shape(es0, es),
        0 <= i < es.len(),
        es0[i].abfahrt is Some,
        e2.betriebsstelle == es[i].betriebsstelle,
        e2.fahrplan_signal_eintraege == es[i].fahrplan_signal_eintraege,
        (e2.ankunft is Some) == (es[i].ankunft is Some),
        e2.abfahrt is Some,
    ensures
        keeps_shape(es0, es.update(i, e2)),
{
    let es2 = es.update(i, e2);
    assert forall|k: int| 0 <= k < es0.len() implies {
        &&& (#[trigger] es2[k]).betriebsstelle == es0[k].betriebsstelle
        &&& es2[k].fahrplan_signal_eintraege == es0[k].fahrplan_signal_eintraege
        &&& (es2[k].ankunft is Some) == (es0[k].ankunft is Some)
        &&& (es2[k].abfahrt is Some) == (es0[k].abfahrt is Some)
        &&& (es0[k].abfahrt is None ==> es2[k] == es0[k])
    } by {
        assert(es[k].betriebsstelle == es0[k].betriebsstelle);
    }
}

proof fn lemma_prefix_keeps_shape(
    entries: Seq<FahrplanEintrag>,
    sched: Seq<ScheduleEntry>,
    prepared: Seq<(usize, Option<usize>)>,
    k: nat,
)
    requires
        k <= prepared.len(),
        forall|m: int| 0 <= m < prepared.len() ==> (#[trigger] prepared[m]).0 < entries.len() && entries[prepared[m].0 as int].abfahrt is Some,
    ensures
        apply_prefix(entries, sched, prepared, k) matches ScheduleProgress::Running(es, _, _, _, _) ==> keeps_shape(entries, es),
        apply_prefix(entries, sched, prepared, k) matches ScheduleProgress::Failed(es, _) ==> keeps_shape(entries, es),
    decreases k,
{
    if k > 0 {
        lemma_prefix_keeps_shape(entries, sched, prepared, (k - 1) as nat);
        match apply_prefix(entries, sched, prepared, (k - 1) as nat) {
            ScheduleProgress::Running(es, pa, ch, _, _) => {
                let item = prepared[k - 1];
                let i = item.0 as int;
                assert(entries[i].abfahrt is Some);
                assert(es[i].abfahrt is Some);
                let e = es[i];
                match item.1 {
                    None => {
                        if let Some(e2) = shift_eintrag(e, ch as int) {
                            lemma_keeps_shape_update(entries, es, i, e2);
                        }
                    },
                    Some(si) => {
                        let s = sched[si as int];
                        let is_stop = e.ankunft is Some;
                        let abfahrt = e.abfahrt.unwrap() as int;
                        let ankunft = if is_stop { e.ankunft.unwrap() as int } else { abfahrt };
                        if !(s.stop_time is Some && !is_stop) {
                            let stop_time = if s.stop_time is Some { s.stop_time.unwrap() as int } else { abfahrt - ankunft };
                            let new_ankunft = match pa {
                                None => ankunft,
                                Some(p) => p + s.driving_time,
                            };
                            let new_abfahrt = new_ankunft + stop_time;
                            let e2 = with_times(e, if is_stop { Some(new_ankunft as i64) } else { e.ankunft }, Some(new_abfahrt as i64));
                            lemma_keeps_shape_update(entries, es, i, e2);
                        }
                    },
                }
            },
            _ => {},
        }
    }
}

proof fn lemma_shift_prepared_keeps_shape(
    entries: Seq<FahrplanEintrag>,
    es: Seq<FahrplanEintrag>,
    prepared: Seq<(usize, Option<usize>)>,
    d: int,
    k: nat,
)
    requires
        k <= prepared.len(),
        keeps_shape(entries, es),
        forall|m: int| 0 <= m < prepared.len() ==> (#[trigger] prepared[m]).0 < entries.len() && entries[prepared[m].0 as int].abfahrt is Some,
    ensures
        shift_prepared(es, prepared, d, k) matches Some(es2) ==> keeps_shape(entries, es2),
    decreases k,
{
    if k > 0 {
        lemma_shift_prepared_keeps_shape(entries, es, prepared, d, (k - 1) as nat);
        if let Some(es1) = shift_prepared(es, prepared, d, (k - 1) as nat) {
            let i = prepared[k - 1].0 as int;
            assert(entries[i].abfahrt is Some);
            if let Some(e2) = shift_eintrag(es1[i], d) {
                lemma_keeps_shape_update(entries, es1, i, e2);
            }
        }
    }
}

/// Applying a schedule changes only times, and only those of entries with a departure:
/// every entry keeps its station, its signals and which of arrival and departure it
/// has, and the number of entries stays; also where the application fails.
pub proof fn lemma_apply_schedule_keeps_shape(entries: Seq<FahrplanEintrag>, sched: Seq<ScheduleEntry>)
    requires
        entries.len() <= usize::MAX,
    ensures
        apply_schedule_progress(entries, sched) matches ScheduleProgress::Running(es, _, _, _, _) ==> keeps_shape(entries, es),
        apply_schedule_progress(entries, sched) matches ScheduleProgress::Failed(es, _) ==> keeps_shape(entries, es),
{
    let prepared = prepared_pairs(entries, sched);
    lemma_abfahrt_positions(entries);
    assert forall|m: int| 0 <= m < prepared.len() implies (#[trigger] prepared[m]).0 < entries.len() && entries[prepared[m].0 as int].abfahrt is Some by {
        assert(prepared[m].0 == abfahrt_positions(entries)[m]);
    }
    lemma_prefix_keeps_shape(entries, sched, prepared, prepared.len());
    if let ScheduleProgress::Running(es, _, _, Some(d), _) = apply_prefix(entries, sched, prepared, prepared.len()) {
        lemma_shift_prepared_keeps_shape(entries, es, prepared, d as int, prepared.len());
    }
}

/// The time of an entry that a time fix of the given kind keeps.
pub open spec fn fixed_time(e: FahrplanEintrag, fix: TimeFix) -> int {
    match fix {
        TimeFix::Ankunft => arrival_time(e),
        TimeFix::Abfahrt => e.abfahrt.unwrap() as int,
    }
}

/// The positions that `prepared` holds rise and lie inside the entries.
spec fn positions_rise(len: nat, prepared: Seq<(usize, Option<usize>)>) -> bool {
    &&& forall|k: int| 0 <= k < prepared.len() ==> (#[trigger] prepared[k]).0 < len
    &&& forall|k: int, m: int| 0 <= k < m < prepared.len() ==> (#[trigger] prepared[k]).0 < (#[trigger] prepared[m]).0
}

proof fn lemma_prepared_positions_rise(entries: Seq<FahrplanEintrag>, sched: Seq<ScheduleEntry>)
    requires
        entries.len() <= usize::MAX,
    ensures
        positions_rise(entries.len(), prepared_pairs(entries, sched)),
        forall|k: int| 0 <= k < prepared_pairs(entries, sched).len() ==> entries[(#[trigger] prepared_pairs(entries, sched)[k]).0 as int].abfahrt is Some,
{
    let p = prepared_pairs(entries, sched);
    lemma_abfahrt_positions(entries);
    assert forall|k: int, m: int| 0 <= k < m < p.len() implies (#[trigger] p[k]).0 < (#[trigger] p[m]).0 by {
        assert(p[k].0 == abfahrt_positions(entries)[k]);
        assert(p[m].0 == abfahrt_positions(entries)[m]);
    }
    assert forall|k: int| 0 <= k < p.len() implies (#[trigger] p[k]).0 < entries.len() && entries[p[k].0 as int].abfahrt is Some by {
        assert(p[k].0 == abfahrt_positions(entries)[k]);
    }
}

/// A step leaves the other entries as they are, and a time fix is remembered.
proof fn lemma_step_frame(
    es: Seq<FahrplanEintrag>,
    sched: Seq<ScheduleEntry>,
    item: (usize, Option<usize>),
    pa: Option<i64>,
    ch: i64,
    tfd: Option<i64>,
    seen: bool,
)
    requires
        item.0 < es.len(),
        es[item.0 as int].abfahrt is Some,
        !seen ==> tfd is None,
    ensures
        apply_step(es, sched, item, pa, ch, tfd, seen) matches ScheduleProgress::Running(es2, _, _, tfd2, seen2) ==> {
            &&& es2.len() == es.len()
            &&& es2[item.0 as int].abfahrt is Some
            &&& forall|j: int| 0 <= j < es.len() && j != item.0 ==> es2[j] == es[j]
            &&& (!seen2 ==> tfd2 is None)
            &&& (seen ==> seen2 && tfd2 == tfd)
            &&& (item.1 matches Some(si) && sched[si as int].time_fix is Some ==> seen2 && !seen)
            &&& (!(item.1 matches Some(si) && sched[si as int].time_fix is Some) ==> seen2 == seen && tfd2 == tfd)
        },
{
}

proof fn lemma_prefix_frame(
    entries: Seq<FahrplanEintrag>,
    sched: Seq<ScheduleEntry>,
    prepared: Seq<(usize, Option<usize>)>,
    m: nat,
)
    requires
        m <= prepared.len(),
        positions_rise(entries.len(), prepared),
        forall|k: int| 0 <= k < prepared.len() ==> entries[(#[trigger] prepared[k]).0 as int].abfahrt is Some,
    ensures
        apply_prefix(entries, sched, prepared, m) matches ScheduleProgress::Running(es, _, _, tfd, seen) ==> {
            &&& es.len() == entries.len()
            &&& (!seen ==> tfd is None)
            &&& forall|k: int| m <= k < prepared.len() ==> es[(#[trigger] prepared[k]).0 as int] == entries[prepared[k].0 as int]
        },
    decreases m,
{
    if m > 0 {
        lemma_prefix_frame(entries, sched, prepared, (m - 1) as nat);
        if let ScheduleProgress::Running(es, pa, ch, tfd, seen) = apply_prefix(entries, sched, prepared, (m - 1) as nat) {
            let item = prepared[m - 1];
            assert(es[item.0 as int] == entries[item.0 as int]);
            lemma_step_frame(es, sched, item, pa, ch, tfd, seen);
            if let ScheduleProgress::Running(es2, _, _, _, _) = apply_step(es, sched, item, pa, ch, tfd, seen) {
                assert forall|k: int| m <= k < prepared.len() implies es2[(#[trigger] prepared[k]).0 as int] == entries[prepared[k].0 as int] by {
                    assert(prepared[m - 1].0 < prepared[k].0);
                }
            }
        }
    }
}

/// From the step with the time fix on, the fixed entry and the asked shift stay.
proof fn lemma_prefix_after_fix(
    entries: Seq<FahrplanEintrag>,
    sched: Seq<ScheduleEntry>,
    prepared: Seq<(usize, Option<usize>)>,
    k: int,
    m: nat,
)
    requires
        0 <= k < m <= prepared.len(),
        positions_rise(entries.len(), prepared),
        forall|j: int| 0 <= j < prepared.len() ==> entries[(#[trigger] prepared[j]).0 as int].abfahrt is Some,
        prepared[k].1 matches Some(si) && sched[si as int].time_fix is Some,
    ensures
        apply_prefix(entries, sched, prepared, m) matches ScheduleProgress::Running(es, _, _, tfd, seen) ==> {
            &&& seen
            &&& apply_prefix(entries, sched, prepared, (k + 1) as nat) matches ScheduleProgress::Running(esk, _, _, tfdk, _)
            &&& tfd == tfdk
            &&& es[prepared[k].0 as int] == esk[prepared[k].0 as int]
        },
    decreases m,
{
    lemma_prefix_frame(entries, sched, prepared, (m - 1) as nat);
    if let ScheduleProgress::Running(es, pa, ch, tfd, seen) = apply_prefix(entries, sched, prepared, (m - 1) as nat) {
        let item = prepared[m - 1];
        if m - 1 > k {
            lemma_prefix_after_fix(entries, sched, prepared, k, (m - 1) as nat);
            lemma_prefix_frame(entries, sched, prepared, (k + 1) as nat);
            assert(prepared[k].0 < item.0);
        }
        assert(es[item.0 as int] == entries[item.0 as int]);
        lemma_step_frame(es, sched, item, pa, ch, tfd, seen);
    }
}

proof fn lemma_shift_prepared_at(
    es: Seq<FahrplanEintrag>,
    prepared: Seq<(usize, Option<usize>)>,
    d: int,
    m: nat,
    k: int,
)
    requires
        m <= prepared.len(),
        0 <= k < prepared.len(),
        positions_rise(es.len(), prepared),
    ensures
        shift_prepared(es, prepared, d, m) matches Some(es2) ==> {
            &&& es2.len() == es.len()
            &&& es2[prepared[k].0 as int] == (if k < m {
                shift_eintrag(es[prepared[k].0 as int], d).unwrap()
            } else {
                es[prepared[k].0 as int]
            })
            &&& (k < m ==> shift_eintrag(es[prepared[k].0 as int], d) is Some)
        },
    decreases m,
{
    if m > 0 {
        lemma_shift_prepared_at(es, prepared, d, (m - 1) as nat, k);
        if k != m - 1 {
            if k < m - 1 {
                assert(prepared[k].0 < prepared[m - 1].0);
            } else {
                assert(prepared[m - 1].0 < prepared[k].0);
            }
        } else {
            lemma_shift_prepared_at(es, prepared, d, (m - 1) as nat, k);
        }
    }
}

/// Where applying a schedule goes through, an entry whose schedule entry fixes a time
/// keeps that time: its arrival for a fixed arrival, its departure for a fixed departure.
pub proof fn lemma_time_fix_kept(entries: Seq<FahrplanEintrag>, sched: Seq<ScheduleEntry>, k: int)
    requires
        entries.len() <= usize::MAX,
        eintraege_wf(entries),
        0 <= k < prepared_pairs(entries, sched).len(),
        prepared_pairs(entries, sched)[k].1 matches Some(si) && sched[si as int].time_fix is Some,
    ensures
        apply_schedule_progress(entries, sched) matches ScheduleProgress::Running(es, _, _, _, _) ==> {
            let i = prepared_pairs(entries, sched)[k].0 as int;
            let fix = sched[prepared_pairs(entries, sched)[k].1.unwrap() as int].time_fix.unwrap();
            fixed_time(es[i], fix) == fixed_time(entries[i], fix)
        },
{
    let p = prepared_pairs(entries, sched);
    let n = p.len();
    let i = p[k].0 as int;
    let si = p[k].1.unwrap() as int;
    let fix = sched[si].time_fix.unwrap();
    lemma_prepared_positions_rise(entries, sched);
    lemma_prefix_frame(entries, sched, p, k as nat);
    lemma_prefix_frame(entries, sched, p, (k + 1) as nat);
    lemma_prefix_after_fix(entries, sched, p, k, n);
    lemma_prefix_frame(entries, sched, p, n);
    assert(entries[i].wf());
    if let ScheduleProgress::Running(esn, _, _, tfdn, _) = apply_prefix(entries, sched, p, n) {
        if let ScheduleProgress::Running(es0, pa, ch, tfd0, seen0) = apply_prefix(entries, sched, p, k as nat) {
            assert(es0[i] == entries[i]);
            lemma_step_frame(es0, sched, p[k], pa, ch, tfd0, seen0);
            if let ScheduleProgress::Running(esk, _, _, tfdk, _) = apply_step(es0, sched, p[k], pa, ch, tfd0, seen0) {
                assert(!seen0);
                assert(esn[i] == esk[i]);
                assert(tfdn == tfdk);
                match tfdn {
                    None => {
                        assert(fixed_time(esk[i], fix) == fixed_time(entries[i], fix));
                    },
                    Some(d) => {
                        lemma_shift_prepared_at(esn, p, d as int, n, k);
                        assert(fixed_time(esk[i], fix) + d == fixed_time(entries[i], fix));
                    },
                }
            }
        }
    }
}

/// Applies the schedule's driving and stop times to the entries that have a departure,
/// from the longest run of stations that they have in common with the schedule; the
/// first entry with a departure after that run moves as the last one of the run moved.
/// A time fix then shifts all entries with a departure so that the fixed time stays as
/// it was. On an error the entries stay as far as they were changed by then. `None`
/// where a date-time would leave the range of date-times.
pub fn apply_schedule_checked(fahrplan_eintraege: &mut Vec<FahrplanEintrag>, schedule: &Schedule) -> (r: Option<Result<(), ApplyScheduleError>>)
    requires
        eintraege_wf(old(fahrplan_eintraege)@),
    ensures
        match apply_schedule_progress(old(fahrplan_eintraege)@, schedule.entries@) {
            ScheduleProgress::Running(es, _, _, _, _) => r == Some(Ok::<(), ApplyScheduleError>(())) && final(fahrplan_eintraege)@ == es,
            ScheduleProgress::Failed(es, e) => r == Some(Err::<(), ApplyScheduleError>(e)) && final(fahrplan_eintraege)@ == es,
            ScheduleProgress::OutOfRange => r is None,
        },
        eintraege_wf(final(fahrplan_eintraege)@),
{
    let ghost entries = fahrplan_eintraege@;
    let _len = fahrplan_eintraege.len();
    let ghost sched = schedule.entries@;
    let prepared = prepare_entries(fahrplan_eintraege, schedule);
    let ghost n = prepared@.len();
    proof {
        lemma_abfahrt_positions(entries);
        assert(positions_valid(entries, prepared@, sched.len()));
    }
    let mut previous_abfahrt: Option<i64> = None;
    let mut previous_change: i64 = 0;
    let mut time_fix_diff: Option<i64> = None;
    let mut time_fix_seen: bool = false;
    let mut k: usize = 0;
    while k < prepared.len()
        invariant
            entries == old(fahrplan_eintraege)@,
            sched == schedule.entries@,
            prepared@ == prepared_pairs(entries, sched),
            n == prepared@.len(),
            k <= n,
            apply_prefix(entries, sched, prepared@, k as nat)
                == ScheduleProgress::Running(fahrplan_eintraege@, previous_abfahrt, previous_change, time_fix_diff, time_fix_seen),
            !time_fix_seen ==> time_fix_diff is None,
            positions_valid(fahrplan_eintraege@, prepared@, sched.len()),
            eintraege_wf(fahrplan_eintraege@),
            opt_in_range(previous_abfahrt),
        decreases n - k,
    {
        let ghost es = fahrplan_eintraege@;
        let (i, paired) = prepared[k];
        proof {
            lemma_step_keeps(es, sched, prepared@, k as int, previous_abfahrt, previous_change, time_fix_diff, time_fix_seen);
            let next = apply_prefix(entries, sched, prepared@, (k + 1) as nat);
            assert(next == apply_step(es, sched, prepared@[k as int], previous_abfahrt, previous_change, time_fix_diff, time_fix_seen));
            if !(next is Running) {
                lemma_prefix_stops(entries, sched, prepared@, (k + 1) as nat, n);
            }
            assert(es[i as int].wf());
        }
        match paired {
            None => {
                let ankunft = shift_time_checked(fahrplan_eintraege[i].ankunft, previous_change);
                let abfahrt = shift_time_checked(fahrplan_eintraege[i].abfahrt, previous_change);
                match (ankunft, abfahrt) {
                    (Some(ankunft), Some(abfahrt)) => {
                        set_times(fahrplan_eintraege, i, ankunft, abfahrt);
                    },
                    _ => {
                        return None;
                    },
                }
                previous_abfahrt = None;
                previous_change = 0;
            },
            Some(si) => {
                let entry = &schedule.entries[si];
                let abfahrt = match fahrplan_eintraege[i].abfahrt {
                    Some(a) => a,
                    None => 0,
                };
                let (ankunft, is_stop) = match fahrplan_eintraege[i].ankunft {
                    None => (abfahrt, false),
                    Some(a) => (a, true),
                };
                let stop_time = match (entry.stop_time, is_stop) {
                    (Some(stop_time), true) => stop_time,
                    (Some(_), false) => {
                        return Some(Err(ApplyScheduleError::CannotApplyStopTime { betriebsstelle: fahrplan_eintraege[i].betriebsstelle.clone() }));
                    },
                    (None, _) => abfahrt - ankunft,
                };
                let new_ankunft: i128 = match previous_abfahrt {
                    None => ankunft as i128,
                    Some(pa) => pa as i128 + entry.driving_time as i128,
                };
                let new_abfahrt: i128 = new_ankunft + stop_time as i128;
                if !is_date_time(new_ankunft) || !is_date_time(new_abfahrt) {
                    return None;
                }
                let new_ankunft = new_ankunft as i64;
                let new_abfahrt = new_abfahrt as i64;
                let old_ankunft = fahrplan_eintraege[i].ankunft;
                set_times(fahrplan_eintraege, i, if is_stop { Some(new_ankunft) } else { old_ankunft }, Some(new_abfahrt));
                previous_abfahrt = Some(new_abfahrt);
                previous_change = new_abfahrt - abfahrt;
                match (entry.time_fix, time_fix_seen) {
                    (Some(_), true) => {
                        return Some(Err(ApplyScheduleError::TimeFixIsAllowedOnlyOnce));
                    },
                    (Some(TimeFix::Ankunft), false) => {
                        if ankunft != new_ankunft {
                            time_fix_diff = Some(ankunft - new_ankunft);
                        }
                        time_fix_seen = true;
                    },
                    (Some(TimeFix::Abfahrt), false) => {
                        if abfahrt != new_abfahrt {
                            time_fix_diff = Some(abfahrt - new_abfahrt);
                        }
                        time_fix_seen = true;
                    },
                    (None, _) => {},
                }
            },
        }
        k = k + 1;
    }
    if let Some(d) = time_fix_diff {
        let mut m: usize = 0;
        while m < prepared.len()
            invariant
                entries == old(fahrplan_eintraege)@,
                sched == schedule.entries@,
                prepared@ == prepared_pairs(entries, sched),
                n == prepared@.len(),
                m <= n,
                apply_prefix(entries, sched, prepared@, n) matches ScheduleProgress::Running(es0, _, _, Some(dd), _)
                    && dd == d && shift_prepared(es0, prepared@, d as int, m as nat) == Some(fahrplan_eintraege@),
                positions_valid(fahrplan_eintraege@, prepared@, sched.len()),
                eintraege_wf(fahrplan_eintraege@),
            decreases n - m,
        {
            let ghost es = fahrplan_eintraege@;
            let (i, _) = prepared[m];
            proof {
                let es0 = apply_prefix(entries, sched, prepared@, n)->Running_0;
                if shift_prepared(es0, prepared@, d as int, (m + 1) as nat) is None {
                    lemma_shift_stops(es0, prepared@, d as int, (m + 1) as nat, n);
                }
                assert(es[i as int].wf());
            }
            let ankunft = shift_time_checked(fahrplan_eintraege[i].ankunft, d);
            let abfahrt = shift_time_checked(fahrplan_eintraege[i].abfahrt, d);
            match (ankunft, abfahrt) {
                (Some(ankunft), Some(abfahrt)) => {
                    set_times(fahrplan_eintraege, i, ankunft, abfahrt);
                },
                _ => {
                    return None;
                },
            }
            m = m + 1;
        }
    }
    Some(Ok(()))
}

/// Applies the schedule as `apply_schedule_checked` does, on entries whose date-times
/// stay in range.
pub fn apply_schedule(fahrplan_eintraege: &mut Vec<FahrplanEintrag>, schedule: &Schedule) -> (r: Result<(), ApplyScheduleError>)
    requires
        eintraege_wf(old(fahrplan_eintraege)@),
        apply_schedule_defined(old(fahrplan_eintraege)@, schedule.entries@),
    ensures
        match apply_schedule_progress(old(fahrplan_eintraege)@, schedule.entries@) {
            ScheduleProgress::Running(es, _, _, _, _) => r is Ok && final(fahrplan_eintraege)@ == es,
            ScheduleProgress::Failed(es, e) => r == Err::<(), ApplyScheduleError>(e) && final(fahrplan_eintraege)@ == es,
            ScheduleProgress::OutOfRange => false,
        },
        eintraege_wf(final(fahrplan_eintraege)@),
{
    match apply_schedule_checked(fahrplan_eintraege, schedule) {
        Some(r) => r,
        // The requires rules this out.
        None => Ok(()),
    }
}

} // verus!

verus! {

use crate::kern::schedules::generate::{generated_entries, last_abfahrt, schedule_entry_for};
use crate::kern::schedules::longest_common_coherent_subsequence::{
    common_suffix_len, is_longest_common_run, lemma_common_suffix_bounded, LongestCommonCoherentSubsequence,
};
use crate::kern::schedules::prepare_entries::{
    betriebsstellen_at, lemma_longest_run_unique, longest_run, schedule_betriebsstellen,
};

proof fn lemma_last_abfahrt(e: Seq<FahrplanEintrag>)
    requires
        e.len() <= usize::MAX,
    ensures
        last_abfahrt(e) == if abfahrt_positions(e).len() == 0 {
            None
        } else {
            e[abfahrt_positions(e).last() as int].abfahrt
        },
    decreases e.len(),
{
    if e.len() > 0 {
        let init = e.drop_last();
        lemma_last_abfahrt(init);
        lemma_abfahrt_positions(init);
        if abfahrt_positions(init).len() > 0 {
            assert(init[abfahrt_positions(init).last() as int] == e[abfahrt_positions(init).last() as int]);
        }
    }
}

proof fn lemma_generated_at_positions(e: Seq<FahrplanEintrag>)
    requires
        e.len() <= usize::MAX,
    ensures
        generated_entries(e).len() == abfahrt_positions(e).len(),
        forall|k: int| 0 <= k < generated_entries(e).len() ==> #[trigger] generated_entries(e)[k] == schedule_entry_for(
            e[abfahrt_positions(e)[k] as int],
            if k == 0 { None } else { e[abfahrt_positions(e)[k - 1] as int].abfahrt },
        ),
    decreases e.len(),
{
    if e.len() > 0 {
        let init = e.drop_last();
        lemma_generated_at_positions(init);
        lemma_abfahrt_positions(init);
        lemma_last_abfahrt(init);
        let g = generated_entries(e);
        let p = abfahrt_positions(e);
        assert forall|k: int| 0 <= k < g.len() implies #[trigger] g[k] == schedule_entry_for(
            e[p[k] as int],
            if k == 0 { None } else { e[p[k - 1] as int].abfahrt },
        ) by {
            if k < generated_entries(init).len() {
                assert(init[abfahrt_positions(init)[k] as int] == e[p[k] as int]);
                if k > 0 {
                    assert(init[abfahrt_positions(init)[k - 1] as int] == e[p[k - 1] as int]);
                }
            } else {
                if k > 0 {
                    assert(init[abfahrt_positions(init)[k - 1] as int] == e[p[k - 1] as int]);
                }
            }
        }
    }
}

proof fn lemma_common_suffix_same<T>(s: Seq<T>, i: int)
    requires
        0 <= i <= s.len(),
    ensures
        common_suffix_len(s, s, i, i) == i,
    decreases i,
{
    if i > 0 {
        lemma_common_suffix_same(s, i - 1);
    }
}

/// A sequence's longest common run with itself is the whole of it.
proof fn lemma_longest_run_same(s: Seq<Seq<char>>)
    requires
        s.len() <= usize::MAX,
    ensures
        longest_run(s, s) == (LongestCommonCoherentSubsequence { sec1_start: 0, sec2_start: 0, len: s.len() as usize }),
{
    let n = s.len() as int;
    let r = LongestCommonCoherentSubsequence { sec1_start: 0, sec2_start: 0, len: s.len() as usize };
    lemma_common_suffix_same(s, n);
    assert forall|i: int, j: int| 0 <= i <= s.len() && 0 <= j <= s.len() implies #[trigger] common_suffix_len(s, s, i, j) <= r.len by {
        lemma_common_suffix_bounded(s, s, i, j);
    }
    assert forall|i: int, j: int| 0 <= i <= s.len() && 0 <= j <= s.len() && crate::kern::schedules::longest_common_coherent_subsequence::lex_before(i, j, n, n) implies #[trigger] common_suffix_len(s, s, i, j) < r.len by {
        lemma_common_suffix_bounded(s, s, i, j);
    }
    assert(is_longest_common_run(s, s, r));
    lemma_longest_run_unique(s, s, r, longest_run(s, s));
}

proof fn lemma_apply_generated_prefix(e: Seq<FahrplanEintrag>, k: nat)
    requires
        e.len() <= usize::MAX,
        eintraege_wf(e),
        k <= abfahrt_positions(e).len(),
        prepared_pairs(e, generated_entries(e)) == Seq::new(abfahrt_positions(e).len(), |m: int| (abfahrt_positions(e)[m], Some(m as usize))),
    ensures
        apply_prefix(e, generated_entries(e), prepared_pairs(e, generated_entries(e)), k) == ScheduleProgress::Running(
            e,
            if k == 0 { None } else { e[abfahrt_positions(e)[k - 1] as int].abfahrt },
            0,
            None,
            false,
        ),
    decreases k,
{
    if k > 0 {
        lemma_apply_generated_prefix(e, (k - 1) as nat);
        lemma_generated_at_positions(e);
        lemma_abfahrt_positions(e);
        let p = abfahrt_positions(e);
        let i = p[k - 1] as int;
        assert(e[i].wf());
        if k > 1 {
            assert(e[p[k - 2] as int].wf());
        }
        let eintrag = e[i];
        let g = generated_entries(e);
        let prepared = prepared_pairs(e, g);
        let prev: Option<i64> = if k == 1 { None } else { e[p[k - 2] as int].abfahrt };
        assert(prepared[k - 1] == (p[k - 1], Some((k - 1) as usize)));
        assert(g[k - 1] == schedule_entry_for(eintrag, prev));
        assert(eintrag.abfahrt is Some);
        assert(with_times(eintrag, eintrag.ankunft, eintrag.abfahrt) == eintrag);
        assert(e.update(i, eintrag) =~= e);
        assert(apply_step(e, g, prepared[k - 1], prev, 0, None, false) == ScheduleProgress::Running(e, eintrag.abfahrt, 0, None, false));
    }
}

/// Applying the schedule that a timetable yields leaves the timetable as it is, and
/// succeeds.
pub proof fn lemma_apply_generated_schedule_keeps_entries(e: Seq<FahrplanEintrag>)
    requires
        e.len() <= usize::MAX,
        eintraege_wf(e),
    ensures
        apply_schedule_progress(e, generated_entries(e)) matches ScheduleProgress::Running(es, _, _, None, _) && es == e,
{
    let g = generated_entries(e);
    let p = abfahrt_positions(e);
    lemma_generated_at_positions(e);
    lemma_abfahrt_positions(e);
    let names = betriebsstellen_at(e, p);
    assert(schedule_betriebsstellen(g) =~= names);
    lemma_longest_run_same(names);
    assert(prepared_pairs(e, g) =~= Seq::new(p.len(), |m: int| (p[m], Some(m as usize))));
    lemma_apply_generated_prefix(e, p.len());
}

} // verus!

verus! {

/// The entry at the `k`-th position of `prepared`, which pairs it with a schedule entry,
/// has the times that the schedule entry gives it: it has an arrival where a stop time
/// is given and departs that stop time after it arrives, and, where the entry before it
/// is paired too, it arrives the driving time after that entry departs.
pub open spec fn agrees_at(es: Seq<FahrplanEintrag>, sched: Seq<ScheduleEntry>, prepared: Seq<(usize, Option<usize>)>, k: int) -> bool {
    let i = prepared[k].0 as int;
    let s = sched[prepared[k].1.unwrap() as int];
    &&& (s.stop_time is Some ==> es[i].ankunft is Some)
    &&& (s.stop_time matches Some(st) ==> es[i].abfahrt.unwrap() == arrival_time(es[i]) + st)
    &&& (k > 0 && prepared[k - 1].1 is Some ==> arrival_time(es[i]) == es[prepared[k - 1].0 as int].abfahrt.unwrap()
        + s.driving_time)
}

/// The `k`-th position of `prepared` is paired with a schedule entry that fixes a time.
spec fn fix_at(sched: Seq<ScheduleEntry>, prepared: Seq<(usize, Option<usize>)>, k: int) -> bool {
    prepared[k].1 matches Some(si) && sched[si as int].time_fix is Some
}

spec fn fixes_before(sched: Seq<ScheduleEntry>, prepared: Seq<(usize, Option<usize>)>, m: int) -> bool {
    exists|k: int| 0 <= k < m && #[trigger] fix_at(sched, prepared, k)
}

spec fn one_fix_before(sched: Seq<ScheduleEntry>, prepared: Seq<(usize, Option<usize>)>, m: int) -> bool {
    forall|k1: int, k2: int| 0 <= k1 < k2 < m ==> !(#[trigger] fix_at(sched, prepared, k1) && #[trigger] fix_at(sched, prepared, k2))
}

spec fn agrees_before(es: Seq<FahrplanEintrag>, sched: Seq<ScheduleEntry>, prepared: Seq<(usize, Option<usize>)>, m: int) -> bool {
    forall|k: int| 0 <= k < m && prepared[k].1 is Some ==> #[trigger] agrees_at(es, sched, prepared, k)
}

spec fn prev_abfahrt(es: Seq<FahrplanEintrag>, prepared: Seq<(usize, Option<usize>)>, m: int) -> Option<i64> {
    if m > 0 && prepared[m - 1].1 is Some {
        es[prepared[m - 1].0 as int].abfahrt
    } else {
        None
    }
}

spec fn prepared_wf(es: Seq<FahrplanEintrag>, prepared: Seq<(usize, Option<usize>)>) -> bool {
    forall|k: int| 0 <= k < prepared.len() ==> es[(#[trigger] prepared[k]).0 as int].abfahrt is Some && es[prepared[k].0 as int].wf()
}

proof fn lemma_step_wf(
    es: Seq<FahrplanEintrag>,
    sched: Seq<ScheduleEntry>,
    item: (usize, Option<usize>),
    pa: Option<i64>,
    ch: i64,
    tfd: Option<i64>,
    seen: bool,
)
    requires
        item.0 < es.len(),
        es[item.0 as int].abfahrt is Some,
        es[item.0 as int].wf(),
    ensures
        apply_step(es, sched, item, pa, ch, tfd, seen) matches ScheduleProgress::Running(es2, _, _, _, _) ==> es2[item.0 as int].wf(),
{
}

/// What the first application of a schedule leaves, step by step.
proof fn lemma_first_run(
    entries: Seq<FahrplanEintrag>,
    sched: Seq<ScheduleEntry>,
    prepared: Seq<(usize, Option<usize>)>,
    m: nat,
)
    requires
        m <= prepared.len(),
        positions_rise(entries.len(), prepared),
        prepared_wf(entries, prepared),
    ensures
        apply_prefix(entries, sched, prepared, m) matches ScheduleProgress::Running(es, pa, _, _, seen) ==> {
            &&& es.len() == entries.len()
            &&& prepared_wf(es, prepared)
            &&& agrees_before(es, sched, prepared, m as int)
            &&& pa == prev_abfahrt(es, prepared, m as int)
            &&& seen == fixes_before(sched, prepared, m as int)
            &&& one_fix_before(sched, prepared, m as int)
        },
    decreases m,
{
    if m > 0 {
        let m1 = (m - 1) as nat;
        lemma_first_run(entries, sched, prepared, m1);
        lemma_prefix_frame(entries, sched, prepared, m1);
        if let ScheduleProgress::Running(es, pa, ch, tfd, seen) = apply_prefix(entries, sched, prepared, m1) {
            let item = prepared[m1 as int];
            let i = item.0 as int;
            assert(es[i].abfahrt is Some && es[i].wf());
            lemma_step_frame(es, sched, item, pa, ch, tfd, seen);
            lemma_step_wf(es, sched, item, pa, ch, tfd, seen);
            if let ScheduleProgress::Running(es2, pa2, _, _, seen2) = apply_step(es, sched, item, pa, ch, tfd, seen) {
                assert forall|k: int| 0 <= k < prepared.len() implies es2[(#[trigger] prepared[k]).0 as int].abfahrt is Some
                    && es2[prepared[k].0 as int].wf() by {
                    if prepared[k].0 != item.0 {
                        assert(es2[prepared[k].0 as int] == es[prepared[k].0 as int]);
                    }
                }
                assert forall|k: int| 0 <= k < m && prepared[k].1 is Some implies #[trigger] agrees_at(es2, sched, prepared, k) by {
                    if k < m1 {
                        assert(agrees_at(es, sched, prepared, k));
                        assert(prepared[k].0 < prepared[m1 as int].0);
                        if k > 0 {
                            assert(prepared[k - 1].0 < prepared[m1 as int].0);
                        }
                    } else {
                        if k > 0 {
                            assert(prepared[k - 1].0 < prepared[m1 as int].0);
                        }
                    }
                }
                if fix_at(sched, prepared, m1 as int) {
                    assert(fixes_before(sched, prepared, m as int));
                    assert forall|k1: int, k2: int| 0 <= k1 < k2 < m implies !(#[trigger] fix_at(sched, prepared, k1) && #[trigger] fix_at(sched, prepared, k2)) by {
                        if k2 == m1 && fix_at(sched, prepared, k1) {
                            assert(fixes_before(sched, prepared, m1 as int));
                        }
                    }
                } else {
                    assert(fixes_before(sched, prepared, m as int) == fixes_before(sched, prepared, m1 as int)) by {
                        if fixes_before(sched, prepared, m as int) {
                            let k = choose|k: int| 0 <= k < m && #[trigger] fix_at(sched, prepared, k);
                            assert(k < m1);
                        }
                        if fixes_before(sched, prepared, m1 as int) {
                            let k = choose|k: int| 0 <= k < m1 && #[trigger] fix_at(sched, prepared, k);
                            assert(fix_at(sched, prepared, k));
                        }
                    }
                }
            }
        }
    }
}


/// Shifting all entries of `prepared` by the same time keeps them agreeing with the
/// schedule.
proof fn lemma_shift_keeps_agreement(
    es: Seq<FahrplanEintrag>,
    sched: Seq<ScheduleEntry>,
    prepared: Seq<(usize, Option<usize>)>,
    d: int,
)
    requires
        positions_rise(es.len(), prepared),
        prepared_wf(es, prepared),
        agrees_before(es, sched, prepared, prepared.len() as int),
    ensures
        shift_prepared(es, prepared, d, prepared.len()) matches Some(es2) ==> {
            &&& es2.len() == es.len()
            &&& prepared_wf(es2, prepared)
            &&& agrees_before(es2, sched, prepared, prepared.len() as int)
        },
{
    let n = prepared.len();
    if let Some(es2) = shift_prepared(es, prepared, d, n) {
        assert forall|k: int| 0 <= k < n implies es2[(#[trigger] prepared[k]).0 as int] == shift_eintrag(es[prepared[k].0 as int], d).unwrap()
            && shift_eintrag(es[prepared[k].0 as int], d) is Some by {
            lemma_shift_prepared_at(es, prepared, d, n, k);
        }
        assert forall|k: int| 0 <= k < n && prepared[k].1 is Some implies #[trigger] agrees_at(es2, sched, prepared, k) by {
            assert(agrees_at(es, sched, prepared, k));
            assert(es2[prepared[k].0 as int] == shift_eintrag(es[prepared[k].0 as int], d).unwrap());
            if k > 0 {
                assert(es2[prepared[k - 1].0 as int] == shift_eintrag(es[prepared[k - 1].0 as int], d).unwrap());
            }
        }
        if n > 0 {
            lemma_shift_prepared_at(es, prepared, d, n, 0);
        }
    }
}

/// Applying the schedule to entries that already agree with it, step by step.
proof fn lemma_second_run(
    es: Seq<FahrplanEintrag>,
    sched: Seq<ScheduleEntry>,
    prepared: Seq<(usize, Option<usize>)>,
    m: nat,
)
    requires
        m <= prepared.len(),
        positions_rise(es.len(), prepared),
        prepared_wf(es, prepared),
        agrees_before(es, sched, prepared, prepared.len() as int),
        one_fix_before(sched, prepared, prepared.len() as int),
    ensures
        apply_prefix(es, sched, prepared, m) == ScheduleProgress::Running(
            es,
            prev_abfahrt(es, prepared, m as int),
            0,
            None,
            fixes_before(sched, prepared, m as int),
        ),
    decreases m,
{
    if m > 0 {
        let m1 = (m - 1) as nat;
        lemma_second_run(es, sched, prepared, m1);
        let item = prepared[m1 as int];
        let i = item.0 as int;
        let e = es[i];
        assert(e.abfahrt is Some && e.wf());
        assert(with_times(e, e.ankunft, e.abfahrt) == e);
        assert(es.update(i, e) =~= es);
        let seen = fixes_before(sched, prepared, m1 as int);
        if fix_at(sched, prepared, m1 as int) {
            assert(fixes_before(sched, prepared, m as int));
            if seen {
                let k = choose|k: int| 0 <= k < m1 && #[trigger] fix_at(sched, prepared, k);
                assert(!(fix_at(sched, prepared, k) && fix_at(sched, prepared, m1 as int)));
            }
        } else {
            assert(fixes_before(sched, prepared, m as int) == seen) by {
                if fixes_before(sched, prepared, m as int) {
                    let k = choose|k: int| 0 <= k < m && #[trigger] fix_at(sched, prepared, k);
                    assert(k < m1);
                }
                if seen {
                    let k = choose|k: int| 0 <= k < m1 && #[trigger] fix_at(sched, prepared, k);
                    assert(fix_at(sched, prepared, k));
                }
            }
        }
        if item.1 is Some {
            assert(agrees_at(es, sched, prepared, m1 as int));
        }
    }
}

/// Entries that differ at most in their times, with the same entries having a departure
/// and the same stations, are paired with a schedule alike.
proof fn lemma_prepared_same_shape(e1: Seq<FahrplanEintrag>, e2: Seq<FahrplanEintrag>, sched: Seq<ScheduleEntry>)
    requires
        e1.len() <= usize::MAX,
        keeps_shape(e1, e2),
    ensures
        prepared_pairs(e2, sched) == prepared_pairs(e1, sched),
    decreases e1.len(),
{
    lemma_positions_same_shape(e1, e2);
    let p = abfahrt_positions(e1);
    lemma_abfahrt_positions(e1);
    assert forall|k: int| 0 <= k < p.len() implies e2[(#[trigger] p[k]) as int].betriebsstelle@ == e1[p[k] as int].betriebsstelle@ by {
        assert(e2[p[k] as int].betriebsstelle == e1[p[k] as int].betriebsstelle);
    }
    assert(crate::kern::schedules::prepare_entries::betriebsstellen_at(e2, p) =~= crate::kern::schedules::prepare_entries::betriebsstellen_at(e1, p));
}

proof fn lemma_positions_same_shape(e1: Seq<FahrplanEintrag>, e2: Seq<FahrplanEintrag>)
    requires
        keeps_shape(e1, e2),
    ensures
        abfahrt_positions(e2) == abfahrt_positions(e1),
    decreases e1.len(),
{
    if e1.len() > 0 {
        let i1 = e1.drop_last();
        let i2 = e2.drop_last();
        assert forall|k: int| 0 <= k < i1.len() implies {
            &&& (#[trigger] i2[k]).betriebsstelle == i1[k].betriebsstelle
            &&& i2[k].fahrplan_signal_eintraege == i1[k].fahrplan_signal_eintraege
            &&& (i2[k].ankunft is Some) == (i1[k].ankunft is Some)
            &&& (i2[k].abfahrt is Some) == (i1[k].abfahrt is Some)
            &&& (i1[k].abfahrt is None ==> i2[k] == i1[k])
        } by {
            assert(e2[k].betriebsstelle == e1[k].betriebsstelle);
        }
        lemma_positions_same_shape(i1, i2);
        assert(e2[e1.len() - 1].betriebsstelle == e1[e1.len() - 1].betriebsstelle);
    }
}

/// Applying a schedule a second time to what applying it gave changes nothing, and
/// succeeds.
pub proof fn lemma_apply_schedule_twice(entries: Seq<FahrplanEintrag>, sched: Seq<ScheduleEntry>)
    requires
        entries.len() <= usize::MAX,
        eintraege_wf(entries),
        apply_schedule_progress(entries, sched) is Running,
    ensures
        apply_schedule_progress(apply_schedule_progress(entries, sched)->Running_0, sched) matches ScheduleProgress::Running(es2, _, _, _, _)
            && es2 == apply_schedule_progress(entries, sched)->Running_0,
{
    let p = prepared_pairs(entries, sched);
    let n = p.len();
    let es1 = apply_schedule_progress(entries, sched)->Running_0;
    lemma_prepared_positions_rise(entries, sched);
    assert forall|k: int| 0 <= k < n implies entries[(#[trigger] p[k]).0 as int].abfahrt is Some && entries[p[k].0 as int].wf() by {
        assert(entries[p[k].0 as int].abfahrt is Some);
    }
    lemma_first_run(entries, sched, p, n);
    lemma_prefix_frame(entries, sched, p, n);
    let esn = apply_prefix(entries, sched, p, n)->Running_0;
    if let ScheduleProgress::Running(_, _, _, Some(d), _) = apply_prefix(entries, sched, p, n) {
        lemma_shift_keeps_agreement(esn, sched, p, d as int);
    }
    lemma_apply_schedule_keeps_shape(entries, sched);
    lemma_prepared_same_shape(entries, es1, sched);
    lemma_second_run(es1, sched, p, n);
}
} // verus!
