//! Helpers for shifting the times of timetables.
use crate::zusi::{
    eintraege_wf, set_times, set_zeile_times, shift_eintrag, shift_eintraege, shift_opt, shift_zeile, shift_zeilen,
    zeilen_wf, FahrplanAbfahrt, FahrplanAnkunft, FahrplanEintrag, FahrplanZeile,
};
use vstd::prelude::*;

verus! {

/// Moves arrival and departure of all entries by `delay` seconds.
pub fn delay_fahrplan_eintraege(eintraege: &mut Vec<FahrplanEintrag>, delay: i64)
    requires
        eintraege_wf(old(eintraege)@),
        shift_eintraege(old(eintraege)@, delay as int) is Some,
    ensures
        final(eintraege)@ == shift_eintraege(old(eintraege)@, delay as int).unwrap(),
        eintraege_wf(final(eintraege)@),
{
    let ghost es = eintraege@;
    let mut k: usize = 0;
    while k < eintraege.len()
        invariant
            es == old(eintraege)@,
            eintraege_wf(es),
            shift_eintraege(es, delay as int) is Some,
            eintraege@.len() == es.len(),
            k <= es.len(),
            forall|m: int| 0 <= m < k ==> #[trigger] eintraege@[m] == shift_eintrag(es[m], delay as int).unwrap(),
            forall|m: int| k <= m < es.len() ==> #[trigger] eintraege@[m] == es[m],
        decreases es.len() - k,
    {
        proof {
            assert(shift_eintrag(es[k as int], delay as int) is Some);
            assert(es[k as int].wf());
        }
        let ankunft = shift_opt(eintraege[k].ankunft, delay);
        let abfahrt = shift_opt(eintraege[k].abfahrt, delay);
        set_times(eintraege, k, ankunft, abfahrt);
        k = k + 1;
    }
    assert(eintraege@ =~= shift_eintraege(es, delay as int).unwrap());
}

/// Moves arrival and departure of all timetable-book lines by `delay` seconds.
pub fn delay_fahrplan_zeilen(zeilen: &mut Vec<FahrplanZeile>, delay: i64)
    requires
        zeilen_wf(old(zeilen)@),
        shift_zeilen(old(zeilen)@, delay as int) is Some,
    ensures
        final(zeilen)@ == shift_zeilen(old(zeilen)@, delay as int).unwrap(),
        zeilen_wf(final(zeilen)@),
{
    let ghost zs = zeilen@;
    let mut k: usize = 0;
    while k < zeilen.len()
        invariant
            zs == old(zeilen)@,
            zeilen_wf(zs),
            shift_zeilen(zs, delay as int) is Some,
            zeilen@.len() == zs.len(),
            k <= zs.len(),
            forall|m: int| 0 <= m < k ==> #[trigger] zeilen@[m] == shift_zeile(zs[m], delay as int).unwrap(),
            forall|m: int| k <= m < zs.len() ==> #[trigger] zeilen@[m] == zs[m],
        decreases zs.len() - k,
    {
        proof {
            assert(shift_zeile(zs[k as int], delay as int) is Some);
            assert(zs[k as int].wf());
        }
        let ankunft = match zeilen[k].fahrplan_ankunft {
            Some(a) => Some(FahrplanAnkunft { ankunft: a.ankunft + delay }),
            None => None,
        };
        let abfahrt = match zeilen[k].fahrplan_abfahrt {
            Some(a) => Some(FahrplanAbfahrt { abfahrt: a.abfahrt + delay }),
            None => None,
        };
        set_zeile_times(zeilen, k, ankunft, abfahrt);
        k = k + 1;
    }
    assert(zeilen@ =~= shift_zeilen(zs, delay as int).unwrap());
}

} // verus!
