//! Reads a schedule off a train's timetable.
use crate::input::schedule::{Schedule, ScheduleEntry};
use crate::zusi::{eintraege_wf, FahrplanEintrag};
use vstd::prelude::*;

verus! {

/// The departure of the last entry that has one.
pub open spec fn last_abfahrt(e: Seq<FahrplanEintrag>) -> Option<i64>
    decreases e.len(),
{
    if e.len() == 0 {
        None
    } else if e.last().abfahrt is Some {
        e.last().abfahrt
    } else {
        last_abfahrt(e.drop_last())
    }
}

/// The schedule entry of an entry with a departure, after the departure `previous` of
/// the entry with a departure before it: the driving time runs from that departure to
/// this arrival (the departure when there is no arrival); a stop time is given where
/// there is an arrival.
pub open spec fn schedule_entry_for(e: FahrplanEintrag, previous: Option<i64>) -> ScheduleEntry {
    let abfahrt = e.abfahrt.unwrap() as int;
    let ankunft = match e.ankunft {
        Some(a) => a as int,
        None => abfahrt,
    };
    ScheduleEntry {
        betriebsstelle: e.betriebsstelle,
        driving_time: match previous {
            None => 0,
            Some(p) => (ankunft - p) as i64,
        },
        stop_time: if e.ankunft is Some { Some((abfahrt - ankunft) as i64) } else { None },
        time_fix: None,
    }
}

/// The schedule entries of the entries with a departure, in order.
pub open spec fn generated_entries(e: Seq<FahrplanEintrag>) -> Seq<ScheduleEntry>
    decreases e.len(),
{
    if e.len() == 0 {
        Seq::empty()
    } else {
        let init = generated_entries(e.drop_last());
        if e.last().abfahrt is Some {
            init.push(schedule_entry_for(e.last(), last_abfahrt(e.drop_last())))
        } else {
            init
        }
    }
}

/// The schedule of a timetable: for each entry with a departure, its station, the
/// driving time from the previous departure and, where it has an arrival, the stop time.
pub fn generate_schedule(fahrplan_eintraege: &Vec<FahrplanEintrag>) -> (r: Schedule)
    requires
        eintraege_wf(fahrplan_eintraege@),
    ensures
        r.entries@ == generated_entries(fahrplan_eintraege@),
{
    let ghost e = fahrplan_eintraege@;
    let mut entries: Vec<ScheduleEntry> = Vec::new();
    let mut previous_abfahrt: Option<i64> = None;
    let mut i: usize = 0;
    while i < fahrplan_eintraege.len()
        invariant
            e == fahrplan_eintraege@,
            eintraege_wf(e),
            i <= e.len(),
            entries@ == generated_entries(e.subrange(0, i as int)),
            previous_abfahrt == last_abfahrt(e.subrange(0, i as int)),
            crate::zeit::opt_in_range(previous_abfahrt),
        decreases e.len() - i,
    {
        proof {
            assert(e.subrange(0, i as int + 1).drop_last() =~= e.subrange(0, i as int));
            assert(e[i as int].wf());
        }
        let eintrag = &fahrplan_eintraege[i];
        if let Some(abfahrt) = eintrag.abfahrt {
            let ankunft = match eintrag.ankunft {
                Some(a) => a,
                None => abfahrt,
            };
            let driving_time: i64 = match previous_abfahrt {
                None => 0,
                Some(previous) => ankunft - previous,
            };
            let stop_time = if eintrag.ankunft.is_some() { Some(abfahrt - ankunft) } else { None };
            entries.push(ScheduleEntry {
                betriebsstelle: eintrag.betriebsstelle.clone(),
                driving_time,
                stop_time,
                time_fix: None,
            });
            previous_abfahrt = Some(abfahrt);
        }
        i = i + 1;
    }
    assert(e.subrange(0, i as int) =~= e);
    Schedule { entries }
}

} // verus!
