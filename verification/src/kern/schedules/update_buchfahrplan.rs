//! Writes the times of a train's timetable into its timetable book.
pub mod rgl_ggl_fahrplan_zeilen;

use crate::kern::schedules::prepare_entries::{abfahrt_positions, lemma_abfahrt_positions};
use crate::kern::schedules::update_buchfahrplan::rgl_ggl_fahrplan_zeilen::{joins_group, RglGglFahrplanZeilen};
use crate::zusi::{set_zeile_times, zeile_with_times, FahrplanAbfahrt, FahrplanAnkunft, FahrplanEintrag, FahrplanZeile};
use vstd::prelude::*;

verus! {

/// Why the timetable book could not be updated.
#[derive(Debug, Clone, PartialEq, Eq)]
pub enum UpdateBuchfahrplanError {
    /// There are not as many groups of timed lines as entries with a departure.
    InvalidLen,
    /// A line does not match its entry: another station, or a time it lacks.
    RelatedEntriesMustBeEqual,
}

impl UpdateBuchfahrplanError {
    /// The message that describes the error.
    pub fn message(&self) -> (r: &'static str)
        ensures
            r@ == update_buchfahrplan_error_message(*self),
    {
        match self {
            UpdateBuchfahrplanError::InvalidLen => "The number of relevant entries for 'FahrplanZeile' and 'FahrplanEintrag' must be equal.",
            UpdateBuchfahrplanError::RelatedEntriesMustBeEqual => "Related entries of type 'FahrplanZeile' and 'FahrplanEintrag' must fulfill following criteria: 'Betriebsstelle' is equal, either 'Ankunft' or 'Abfahrt' must be set.",
        }
    }
}

/// The message of each error.
pub open spec fn update_buchfahrplan_error_message(e: UpdateBuchfahrplanError) -> Seq<char> {
    match e {
        UpdateBuchfahrplanError::InvalidLen => "The number of relevant entries for 'FahrplanZeile' and 'FahrplanEintrag' must be equal."@,
        UpdateBuchfahrplanError::RelatedEntriesMustBeEqual => "Related entries of type 'FahrplanZeile' and 'FahrplanEintrag' must fulfill following criteria: 'Betriebsstelle' is equal, either 'Ankunft' or 'Abfahrt' must be set."@,
    }
}

/// The positions of the lines that have an arrival or a departure, in order.
pub open spec fn timed_positions(z: Seq<FahrplanZeile>) -> Seq<usize>
    decreases z.len(),
{
    if z.len() == 0 {
        Seq::empty()
    } else {
        let init = timed_positions(z.drop_last());
        if z.last().fahrplan_ankunft is Some || z.last().fahrplan_abfahrt is Some {
            init.push((z.len() - 1) as usize)
        } else {
            init
        }
    }
}

/// The lines at `positions` gathered into groups: each line joins the group before it
/// when that group takes it, and begins a group of its own otherwise.
pub open spec fn group_positions(all: Seq<FahrplanZeile>, positions: Seq<usize>) -> Seq<Seq<usize>>
    decreases positions.len(),
{
    if positions.len() == 0 {
        Seq::empty()
    } else {
        let init = group_positions(all, positions.drop_last());
        let p = positions.last();
        if init.len() > 0 && joins_group(all, init.last(), p) {
            init.update(init.len() - 1, init.last().push(p))
        } else {
            init.push(seq![p])
        }
    }
}

/// The groups of the timed lines of a timetable book.
pub open spec fn zeilen_groups(z: Seq<FahrplanZeile>) -> Seq<Seq<usize>> {
    group_positions(z, timed_positions(z))
}

/// A line takes the times of its entry: it must name the entry's station; an arrival it
/// has becomes the entry's arrival, which the entry must have (a line without arrival
/// must have a departure); then the same for the departure. The second part tells
/// whether all went well; the line is as far as it was changed then.
pub open spec fn update_zeile(z: FahrplanZeile, e: FahrplanEintrag) -> (FahrplanZeile, bool) {
    if !(z.fahrplan_name matches Some(n) && n.fahrplan_name_text@ == e.betriebsstelle@) {
        (z, false)
    } else {
        let (z1, ok1) = match z.fahrplan_ankunft {
            None => (z, z.fahrplan_abfahrt is Some),
            Some(_) => if e.ankunft is Some {
                (zeile_with_times(z, Some(FahrplanAnkunft { ankunft: e.ankunft.unwrap() }), z.fahrplan_abfahrt), true)
            } else {
                (z, false)
            },
        };
        if !ok1 {
            (z1, false)
        } else {
            match z1.fahrplan_abfahrt {
                None => (z1, z1.fahrplan_ankunft is Some),
                Some(_) => if e.abfahrt is Some {
                    (zeile_with_times(z1, z1.fahrplan_ankunft, Some(FahrplanAbfahrt { abfahrt: e.abfahrt.unwrap() })), true)
                } else {
                    (z1, false)
                },
            }
        }
    }
}

/// The first `m` lines of a group take the times of `e`, stopping at the first that fails.
pub open spec fn process_group(zs: Seq<FahrplanZeile>, e: FahrplanEintrag, group: Seq<usize>, m: nat) -> (Seq<FahrplanZeile>, bool)
    decreases m,
{
    if m == 0 {
        (zs, true)
    } else {
        let (zs1, ok) = process_group(zs, e, group, (m - 1) as nat);
        if !ok {
            (zs1, false)
        } else {
            let p = group[m - 1] as int;
            let (nz, ok2) = update_zeile(zs1[p], e);
            (zs1.update(p, nz), ok2)
        }
    }
}

/// The first `g` groups take the times of their entries, in order, stopping at the first
/// line that fails.
pub open spec fn process_groups(
    zs: Seq<FahrplanZeile>,
    e: Seq<FahrplanEintrag>,
    positions: Seq<usize>,
    groups: Seq<Seq<usize>>,
    g: nat,
) -> (Seq<FahrplanZeile>, bool)
    decreases g,
{
    if g == 0 {
        (zs, true)
    } else {
        let (zs1, ok) = process_groups(zs, e, positions, groups, (g - 1) as nat);
        if !ok {
            (zs1, false)
        } else {
            process_group(zs1, e[positions[g - 1] as int], groups[g - 1], groups[g - 1].len())
        }
    }
}

/// The timetable book after the update, and whether it succeeded: the k-th group of
/// timed lines takes the times of the k-th entry with a departure.
pub open spec fn update_buchfahrplan_result(e: Seq<FahrplanEintrag>, z: Seq<FahrplanZeile>) -> (Seq<FahrplanZeile>, Result<(), UpdateBuchfahrplanError>) {
    let positions = abfahrt_positions(e);
    let groups = zeilen_groups(z);
    if groups.len() != positions.len() {
        (z, Err(UpdateBuchfahrplanError::InvalidLen))
    } else {
        let (zs, ok) = process_groups(z, e, positions, groups, groups.len());
        (zs, if ok { Ok(()) } else { Err(UpdateBuchfahrplanError::RelatedEntriesMustBeEqual) })
    }
}

/// Lets the line at `p` take the times of `e`, as `update_zeile` says.
fn update_zeile_exec(zeilen: &mut Vec<FahrplanZeile>, p: usize, e: &FahrplanEintrag) -> (ok: bool)
    requires
        p < old(zeilen)@.len(),
    ensures
        final(zeilen)@ == old(zeilen)@.update(p as int, update_zeile(old(zeilen)@[p as int], *e).0),
        ok == update_zeile(old(zeilen)@[p as int], *e).1,
{
    let ghost z = zeilen@[p as int];
    let name_ok = match &zeilen[p].fahrplan_name {
        Some(n) => n.fahrplan_name_text == e.betriebsstelle,
        None => false,
    };
    if !name_ok {
        assert(zeilen@ =~= old(zeilen)@.update(p as int, z));
        return false;
    }
    let ankunft = zeilen[p].fahrplan_ankunft;
    let abfahrt = zeilen[p].fahrplan_abfahrt;
    let new_ankunft = match ankunft {
        None => {
            if abfahrt.is_none() {
                assert(zeilen@ =~= old(zeilen)@.update(p as int, z));
                return false;
            }
            None
        },
        Some(_) => match e.ankunft {
            Some(a) => Some(FahrplanAnkunft { ankunft: a }),
            None => {
                assert(zeilen@ =~= old(zeilen)@.update(p as int, z));
                return false;
            },
        },
    };
    set_zeile_times(zeilen, p, new_ankunft, abfahrt);
    match abfahrt {
        None => {
            new_ankunft.is_some()
        },
        Some(_) => match e.abfahrt {
            Some(a) => {
                set_zeile_times(zeilen, p, new_ankunft, Some(FahrplanAbfahrt { abfahrt: a }));
                assert(zeilen@ =~= old(zeilen)@.update(p as int, update_zeile(z, *e).0));
                true
            },
            None => false,
        },
    }
}

/// Writes the arrival and departure of each entry with a departure into the lines of the
/// timetable book that belong to it: the timed lines, gathered into groups of the same
/// station stop on different tracks, belong to the entries in order. Fails when the
/// numbers differ, or when a line does not match its entry; the lines stay as far as
/// they were changed then.
pub fn update_buchfahrplan(fahrplan_eintraege: &Vec<FahrplanEintrag>, fahrplan_zeilen: &mut Vec<FahrplanZeile>) -> (r: Result<(), UpdateBuchfahrplanError>)
    ensures
        (final(fahrplan_zeilen)@, r) == update_buchfahrplan_result(fahrplan_eintraege@, old(fahrplan_zeilen)@),
{
    let ghost e = fahrplan_eintraege@;
    let ghost z = fahrplan_zeilen@;
    let n_zeilen = fahrplan_zeilen.len();
    let n_eintraege = fahrplan_eintraege.len();
    proof {
        lemma_abfahrt_positions(e);
    }
    // the entries with a departure
    let mut positions: Vec<usize> = Vec::new();
    let mut i: usize = 0;
    while i < n_eintraege
        invariant
            e == fahrplan_eintraege@,
            n_eintraege == e.len(),
            i <= e.len(),
            positions@ == abfahrt_positions(e.subrange(0, i as int)),
        decreases e.len() - i,
    {
        proof {
            assert(e.subrange(0, i as int + 1).drop_last() =~= e.subrange(0, i as int));
        }
        if fahrplan_eintraege[i].abfahrt.is_some() {
            positions.push(i);
        }
        i = i + 1;
    }
    assert(e.subrange(0, i as int) =~= e);
    // the groups of timed lines
    let mut groups: Vec<RglGglFahrplanZeilen> = Vec::new();
    let mut j: usize = 0;
    while j < n_zeilen
        invariant
            z == fahrplan_zeilen@,
            n_zeilen == z.len(),
            j <= z.len(),
            groups@.len() == group_positions(z, timed_positions(z.subrange(0, j as int))).len(),
            forall|g: int| 0 <= g < groups@.len() ==> (#[trigger] groups@[g]).wf(z)
                && groups@[g].positions() == group_positions(z, timed_positions(z.subrange(0, j as int)))[g],
        decreases z.len() - j,
    {
        let ghost prefix = z.subrange(0, j as int);
        let ghost next = z.subrange(0, j as int + 1);
        proof {
            assert(next.drop_last() =~= prefix);
            assert(next.last() == z[j as int]);
        }
        if fahrplan_zeilen[j].fahrplan_ankunft.is_some() || fahrplan_zeilen[j].fahrplan_abfahrt.is_some() {
            proof {
                assert(timed_positions(next) == timed_positions(prefix).push(j));
                assert(timed_positions(next).drop_last() =~= timed_positions(prefix));
            }
            if groups.len() > 0 {
                let ghost before = groups@;
                let mut last = groups.pop().unwrap();
                let returned = last.insert_or_return(fahrplan_zeilen, j);
                groups.push(last);
                if returned.is_some() {
                    groups.push(RglGglFahrplanZeilen::new(fahrplan_zeilen, j));
                }
                proof {
                    let gp = group_positions(z, timed_positions(prefix));
                    assert(before.last().positions() == gp.last());
                }
            } else {
                groups.push(RglGglFahrplanZeilen::new(fahrplan_zeilen, j));
            }
        } else {
            assert(timed_positions(next) == timed_positions(prefix));
        }
        j = j + 1;
    }
    assert(z.subrange(0, j as int) =~= z);
    let ghost groups_spec = zeilen_groups(z);
    if groups.len() != positions.len() {
        return Err(UpdateBuchfahrplanError::InvalidLen);
    }
    let mut g: usize = 0;
    while g < groups.len()
        invariant
            e == fahrplan_eintraege@,
            z == old(fahrplan_zeilen)@,
            groups_spec == zeilen_groups(z),
            positions@ == abfahrt_positions(e),
            groups@.len() == groups_spec.len() == positions@.len(),
            forall|k: int| 0 <= k < groups@.len() ==> (#[trigger] groups@[k]).wf(z) && groups@[k].positions() == groups_spec[k],
            forall|k: int| 0 <= k < positions@.len() ==> #[trigger] positions@[k] < e.len(),
            g <= groups@.len(),
            fahrplan_zeilen@.len() == z.len(),
            process_groups(z, e, positions@, groups_spec, g as nat) == (fahrplan_zeilen@, true),
        decreases groups@.len() - g,
    {
        let group = groups[g].zeilen();
        let eintrag = &fahrplan_eintraege[positions[g]];
        let ghost start = fahrplan_zeilen@;
        let mut m: usize = 0;
        while m < group.len()
            invariant
                e == fahrplan_eintraege@,
                z == old(fahrplan_zeilen)@,
                groups_spec == zeilen_groups(z),
                positions@ == abfahrt_positions(e),
                groups@.len() == groups_spec.len() == positions@.len(),
                process_groups(z, e, positions@, groups_spec, g as nat) == (start, true),
                *eintrag == e[positions@[g as int] as int],
                g < groups@.len(),
                groups@[g as int].wf(z),
                group@ == groups_spec[g as int],
                group@ == groups@[g as int].positions(),
                fahrplan_zeilen@.len() == z.len(),
                m <= group@.len(),
                process_group(start, *eintrag, group@, m as nat) == (fahrplan_zeilen@, true),
            decreases group@.len() - m,
        {
            let p = group[m];
            proof {
                groups@[g as int].lemma_wf_positions(z);
            }
            let ok = update_zeile_exec(fahrplan_zeilen, p, eintrag);
            if !ok {
                proof {
                    lemma_process_group_stops(start, *eintrag, group@, (m + 1) as nat, group@.len());
                    lemma_process_groups_stops(z, e, positions@, groups_spec, (g + 1) as nat, groups_spec.len());
                }
                return Err(UpdateBuchfahrplanError::RelatedEntriesMustBeEqual);
            }
            m = m + 1;
        }
        g = g + 1;
    }
    Ok(())
}

/// The two lines differ at most in their times: same track, same station, and an
/// arrival and a departure in the same places.
pub open spec fn same_except_times(a: FahrplanZeile, b: FahrplanZeile) -> bool {
    &&& a.fahrplan_regelgleis_gegengleis == b.fahrplan_regelgleis_gegengleis
    &&& a.fahrplan_name == b.fahrplan_name
    &&& (a.fahrplan_ankunft is Some) == (b.fahrplan_ankunft is Some)
    &&& (a.fahrplan_abfahrt is Some) == (b.fahrplan_abfahrt is Some)
}

proof fn lemma_timed_positions_in_range(z: Seq<FahrplanZeile>)
    ensures
        forall|i: int| 0 <= i < timed_positions(z).len() ==> #[trigger] timed_positions(z)[i] < z.len(),
    decreases z.len(),
{
    if z.len() > 0 {
        let init = z.drop_last();
        lemma_timed_positions_in_range(init);
        let t = timed_positions(z);
        let ti = timed_positions(init);
        assert forall|i: int| 0 <= i < t.len() implies #[trigger] t[i] < z.len() by {
            if i < ti.len() {
                assert(t[i] == ti[i]);
                assert(ti[i] < init.len());
            }
        }
    }
}

proof fn lemma_group_positions_in_range(all: Seq<FahrplanZeile>, positions: Seq<usize>, n: int)
    requires
        forall|i: int| 0 <= i < positions.len() ==> #[trigger] positions[i] < n,
    ensures
        forall|a: int, i: int| 0 <= a < group_positions(all, positions).len() && 0 <= i < group_positions(all, positions)[a].len()
            ==> #[trigger] group_positions(all, positions)[a][i] < n,
    decreases positions.len(),
{
    if positions.len() > 0 {
        let init = positions.drop_last();
        assert forall|i: int| 0 <= i < init.len() implies #[trigger] init[i] < n by {
            assert(init[i] == positions[i]);
        }
        lemma_group_positions_in_range(all, init, n);
        let gs = group_positions(all, init);
        let p = positions.last();
        assert(p == positions[positions.len() - 1]);
        let r = group_positions(all, positions);
        assert forall|a: int, i: int| 0 <= a < r.len() && 0 <= i < r[a].len() implies #[trigger] r[a][i] < n by {
            if gs.len() > 0 && joins_group(all, gs.last(), p) {
                if a == gs.len() - 1 {
                    if i < gs.last().len() {
                        assert(r[a][i] == gs[a][i]);
                    }
                } else {
                    assert(r[a] == gs[a]);
                }
            } else {
                if a < gs.len() {
                    assert(r[a] == gs[a]);
                }
            }
        }
    }
}

proof fn lemma_process_group_keeps(zs: Seq<FahrplanZeile>, e: FahrplanEintrag, group: Seq<usize>, m: nat)
    requires
        m <= group.len(),
        forall|i: int| 0 <= i < group.len() ==> #[trigger] group[i] < zs.len(),
    ensures
        process_group(zs, e, group, m).0.len() == zs.len(),
        forall|k: int| 0 <= k < zs.len() ==> same_except_times(#[trigger] zs[k], process_group(zs, e, group, m).0[k]),
    decreases m,
{
    if m > 0 {
        lemma_process_group_keeps(zs, e, group, (m - 1) as nat);
        let (zs1, ok) = process_group(zs, e, group, (m - 1) as nat);
        if ok {
            let p = group[m - 1] as int;
            assert(group[m - 1] < zs.len());
            let r = process_group(zs, e, group, m).0;
            assert forall|k: int| 0 <= k < zs.len() implies same_except_times(#[trigger] zs[k], r[k]) by {
                assert(same_except_times(zs[k], zs1[k]));
            }
        }
    }
}

proof fn lemma_process_groups_keeps(
    zs: Seq<FahrplanZeile>,
    e: Seq<FahrplanEintrag>,
    positions: Seq<usize>,
    groups: Seq<Seq<usize>>,
    g: nat,
)
    requires
        g <= groups.len(),
        forall|a: int, i: int| 0 <= a < groups.len() && 0 <= i < groups[a].len() ==> #[trigger] groups[a][i] < zs.len(),
    ensures
        process_groups(zs, e, positions, groups, g).0.len() == zs.len(),
        forall|k: int| 0 <= k < zs.len() ==> same_except_times(#[trigger] zs[k], process_groups(zs, e, positions, groups, g).0[k]),
    decreases g,
{
    if g > 0 {
        lemma_process_groups_keeps(zs, e, positions, groups, (g - 1) as nat);
        let (zs1, ok) = process_groups(zs, e, positions, groups, (g - 1) as nat);
        if ok {
            let group = groups[g - 1];
            assert forall|i: int| 0 <= i < group.len() implies #[trigger] group[i] < zs1.len() by {
                assert(groups[g - 1][i] < zs.len());
            }
            lemma_process_group_keeps(zs1, e[positions[g - 1] as int], group, group.len());
            let r = process_groups(zs, e, positions, groups, g).0;
            assert forall|k: int| 0 <= k < zs.len() implies same_except_times(#[trigger] zs[k], r[k]) by {
                assert(same_except_times(zs[k], zs1[k]));
                assert(same_except_times(zs1[k], r[k]));
            }
        }
    }
}

/// Updating a timetable book changes only times: every line keeps its track, its
/// station and which of arrival and departure it has, whether the update succeeds or
/// not; lines without times stay as they are, and the number of lines stays.
pub proof fn lemma_update_buchfahrplan_keeps_lines(e: Seq<FahrplanEintrag>, z: Seq<FahrplanZeile>)
    ensures
        update_buchfahrplan_result(e, z).0.len() == z.len(),
        forall|k: int| 0 <= k < z.len() ==> same_except_times(#[trigger] z[k], update_buchfahrplan_result(e, z).0[k]),
{
    lemma_timed_positions_in_range(z);
    lemma_group_positions_in_range(z, timed_positions(z), z.len() as int);
    let groups = zeilen_groups(z);
    if groups.len() == abfahrt_positions(e).len() {
        lemma_process_groups_keeps(z, e, abfahrt_positions(e), groups, groups.len());
    }
}

proof fn lemma_process_group_stops(zs: Seq<FahrplanZeile>, e: FahrplanEintrag, group: Seq<usize>, m: nat, n: nat)
    requires
        m <= n,
        !process_group(zs, e, group, m).1,
    ensures
        process_group(zs, e, group, n) == process_group(zs, e, group, m),
    decreases n - m,
{
    if m < n {
        lemma_process_group_stops(zs, e, group, m, (n - 1) as nat);
    }
}

proof fn lemma_process_groups_stops(
    zs: Seq<FahrplanZeile>,
    e: Seq<FahrplanEintrag>,
    positions: Seq<usize>,
    groups: Seq<Seq<usize>>,
    g: nat,
    n: nat,
)
    requires
        g <= n,
        !process_groups(zs, e, positions, groups, g).1,
    ensures
        process_groups(zs, e, positions, groups, n) == process_groups(zs, e, positions, groups, g),
    decreases n - g,
{
    if g < n {
        lemma_process_groups_stops(zs, e, positions, groups, g, (n - 1) as nat);
    }
}


/// The line `z_new` holds the times of the entry `e` in place of those of `z_old`: it
/// names the entry's station, has a time at all, and has the entry's arrival where it
/// had an arrival and the entry's departure where it had a departure.
pub open spec fn carries_times(z_old: FahrplanZeile, z_new: FahrplanZeile, e: FahrplanEintrag) -> bool {
    &&& z_new.fahrplan_name matches Some(n) && n.fahrplan_name_text@ == e.betriebsstelle@
    &&& (z_old.fahrplan_ankunft is Some || z_old.fahrplan_abfahrt is Some)
    &&& (z_old.fahrplan_ankunft is Some ==> e.ankunft is Some && z_new.fahrplan_ankunft == Some(FahrplanAnkunft { ankunft: e.ankunft.unwrap() }))
    &&& (z_old.fahrplan_ankunft is None ==> z_new.fahrplan_ankunft is None)
    &&& (z_old.fahrplan_abfahrt is Some ==> e.abfahrt is Some && z_new.fahrplan_abfahrt == Some(FahrplanAbfahrt { abfahrt: e.abfahrt.unwrap() }))
    &&& (z_old.fahrplan_abfahrt is None ==> z_new.fahrplan_abfahrt is None)
}

/// The positions rise within each group, and every position of a group lies before
/// those of the groups after it.
spec fn groups_ordered(groups: Seq<Seq<usize>>) -> bool {
    &&& forall|a: int, i: int, j: int| 0 <= a < groups.len() && 0 <= i < j < groups[a].len() ==> #[trigger] groups[a][i] < #[trigger] groups[a][j]
    &&& forall|a: int, b: int, i: int, j: int| 0 <= a < b < groups.len() && 0 <= i < groups[a].len() && 0 <= j < groups[b].len()
        ==> #[trigger] groups[a][i] < #[trigger] groups[b][j]
}

proof fn lemma_timed_positions_rise(z: Seq<FahrplanZeile>)
    requires
        z.len() <= usize::MAX,
    ensures
        forall|i: int, j: int| 0 <= i < j < timed_positions(z).len() ==> #[trigger] timed_positions(z)[i] < #[trigger] timed_positions(z)[j],
    decreases z.len(),
{
    if z.len() > 0 {
        let init = z.drop_last();
        lemma_timed_positions_rise(init);
        lemma_timed_positions_in_range(init);
        let t = timed_positions(z);
        let ti = timed_positions(init);
        if z.last().fahrplan_ankunft is Some || z.last().fahrplan_abfahrt is Some {
            assert(t == ti.push((z.len() - 1) as usize));
            assert forall|i: int, j: int| 0 <= i < j < t.len() implies #[trigger] t[i] < #[trigger] t[j] by {
                assert(t[i] == ti[i]);
                if j < ti.len() {
                    assert(t[j] == ti[j]);
                } else {
                    assert(ti[i] < init.len());
                }
            }
        } else {
            assert(t == ti);
        }
    }
}

proof fn lemma_group_positions_ordered(all: Seq<FahrplanZeile>, positions: Seq<usize>)
    requires
        forall|i: int, j: int| 0 <= i < j < positions.len() ==> #[trigger] positions[i] < #[trigger] positions[j],
    ensures
        groups_ordered(group_positions(all, positions)),
    decreases positions.len(),
{
    if positions.len() > 0 {
        let init = positions.drop_last();
        let p = positions.last();
        assert forall|i: int, j: int| 0 <= i < j < init.len() implies #[trigger] init[i] < #[trigger] init[j] by {
            assert(init[i] == positions[i] && init[j] == positions[j]);
        }
        lemma_group_positions_ordered(all, init);
        assert forall|i: int| 0 <= i < init.len() implies #[trigger] init[i] < p by {
            assert(init[i] == positions[i]);
            assert(p == positions[positions.len() - 1]);
        }
        lemma_group_positions_in_range(all, init, p as int);
        let gs = group_positions(all, init);
        let r = group_positions(all, positions);
        if gs.len() > 0 && joins_group(all, gs.last(), p) {
            let last = gs.len() - 1;
            assert forall|a: int, i: int, j: int| 0 <= a < r.len() && 0 <= i < j < r[a].len() implies #[trigger] r[a][i] < #[trigger] r[a][j] by {
                if a == last {
                    assert(r[a] == gs[a].push(p));
                    assert(r[a][i] == gs[a][i]);
                    if j < gs[a].len() {
                        assert(r[a][j] == gs[a][j]);
                    }
                } else {
                    assert(r[a] == gs[a]);
                }
            }
            assert forall|a: int, b: int, i: int, j: int| 0 <= a < b < r.len() && 0 <= i < r[a].len() && 0 <= j < r[b].len()
                implies #[trigger] r[a][i] < #[trigger] r[b][j] by {
                assert(r[a] == gs[a]);
                if b == last {
                    assert(r[b] == gs[b].push(p));
                    if j < gs[b].len() {
                        assert(r[b][j] == gs[b][j]);
                    } else {
                        assert(gs[a][i] < p);
                    }
                } else {
                    assert(r[b] == gs[b]);
                }
            }
        } else {
            assert forall|a: int, i: int, j: int| 0 <= a < r.len() && 0 <= i < j < r[a].len() implies #[trigger] r[a][i] < #[trigger] r[a][j] by {
                if a < gs.len() {
                    assert(r[a] == gs[a]);
                }
            }
            assert forall|a: int, b: int, i: int, j: int| 0 <= a < b < r.len() && 0 <= i < r[a].len() && 0 <= j < r[b].len()
                implies #[trigger] r[a][i] < #[trigger] r[b][j] by {
                assert(r[a] == gs[a]);
                if b < gs.len() {
                    assert(r[b] == gs[b]);
                } else {
                    assert(r[b] == seq![p]);
                    assert(gs[a][i] < p);
                }
            }
        }
    }
}

proof fn lemma_update_zeile_carries(z: FahrplanZeile, e: FahrplanEintrag)
    ensures
        update_zeile(z, e).1 ==> carries_times(z, update_zeile(z, e).0, e),
{
}

proof fn lemma_process_group_result(zs: Seq<FahrplanZeile>, e: FahrplanEintrag, group: Seq<usize>, m: nat)
    requires
        m <= group.len(),
        forall|i: int| 0 <= i < group.len() ==> #[trigger] group[i] < zs.len(),
        forall|i: int, j: int| 0 <= i < j < group.len() ==> #[trigger] group[i] < #[trigger] group[j],
    ensures
        process_group(zs, e, group, m).1 ==> {
            let r = process_group(zs, e, group, m).0;
            &&& forall|j: int| 0 <= j < m ==> update_zeile(zs[#[trigger] group[j] as int], e).1
                && r[group[j] as int] == update_zeile(zs[group[j] as int], e).0
            &&& forall|q: int| 0 <= q < zs.len() && (forall|j: int| 0 <= j < m ==> #[trigger] group[j] != q) ==> r[q] == zs[q]
        },
    decreases m,
{
    if m > 0 {
        let m1 = (m - 1) as nat;
        lemma_process_group_result(zs, e, group, m1);
        lemma_process_group_keeps(zs, e, group, m1);
        let (zs1, ok) = process_group(zs, e, group, m1);
        if ok {
            let p = group[m1 as int] as int;
            assert forall|j: int| 0 <= j < m1 implies #[trigger] group[j] != p by {
                assert(group[j] < group[m1 as int]);
            }
            assert(zs1[p] == zs[p]);
            let r = process_group(zs, e, group, m).0;
            assert forall|j: int| 0 <= j < m implies update_zeile(zs[#[trigger] group[j] as int], e).1 || !process_group(zs, e, group, m).1 by {
                if j < m1 {
                    assert(group[j] < group[m1 as int]);
                }
            }
            assert forall|j: int| 0 <= j < m && process_group(zs, e, group, m).1 implies r[#[trigger] group[j] as int] == update_zeile(zs[group[j] as int], e).0 by {
                if j < m1 {
                    assert(group[j] < group[m1 as int]);
                }
            }
            assert forall|q: int| 0 <= q < zs.len() && (forall|j: int| 0 <= j < m ==> #[trigger] group[j] != q) implies r[q] == zs[q] by {
                assert(group[m1 as int] != q);
                assert forall|j: int| 0 <= j < m1 implies #[trigger] group[j] != q by {
                    assert(group[j] != q);
                }
            }
        }
    }
}

proof fn lemma_process_groups_result(
    zs: Seq<FahrplanZeile>,
    e: Seq<FahrplanEintrag>,
    positions: Seq<usize>,
    groups: Seq<Seq<usize>>,
    g: nat,
)
    requires
        g <= groups.len(),
        forall|a: int, i: int| 0 <= a < groups.len() && 0 <= i < groups[a].len() ==> #[trigger] groups[a][i] < zs.len(),
        groups_ordered(groups),
    ensures
        process_groups(zs, e, positions, groups, g).1 ==> {
            let r = process_groups(zs, e, positions, groups, g).0;
            &&& forall|a: int, j: int| 0 <= a < g && 0 <= j < groups[a].len()
                ==> update_zeile(zs[#[trigger] groups[a][j] as int], e[positions[a] as int]).1
                && r[groups[a][j] as int] == update_zeile(zs[groups[a][j] as int], e[positions[a] as int]).0
            &&& forall|q: int| 0 <= q < zs.len() && (forall|a: int, j: int| 0 <= a < g && 0 <= j < groups[a].len() ==> #[trigger] groups[a][j] != q)
                ==> r[q] == zs[q]
        },
    decreases g,
{
    if g > 0 {
        let g1 = (g - 1) as nat;
        lemma_process_groups_result(zs, e, positions, groups, g1);
        lemma_process_groups_keeps(zs, e, positions, groups, g1);
        let (zs1, ok) = process_groups(zs, e, positions, groups, g1);
        if ok {
            let group = groups[g1 as int];
            let ee = e[positions[g1 as int] as int];
            assert forall|i: int| 0 <= i < group.len() implies #[trigger] group[i] < zs1.len() by {
                assert(groups[g1 as int][i] < zs.len());
            }
            assert forall|i: int, j: int| 0 <= i < j < group.len() implies #[trigger] group[i] < #[trigger] group[j] by {
                assert(groups[g1 as int][i] < groups[g1 as int][j]);
            }
            lemma_process_group_result(zs1, ee, group, group.len());
            let r = process_groups(zs, e, positions, groups, g).0;
            if process_groups(zs, e, positions, groups, g).1 {
                assert forall|x: int| 0 <= x < group.len() implies zs1[#[trigger] group[x] as int] == zs[group[x] as int] by {
                    assert forall|a: int, j: int| 0 <= a < g1 && 0 <= j < groups[a].len() implies #[trigger] groups[a][j] != group[x] by {
                        assert(groups[a][j] < groups[g1 as int][x]);
                    }
                }
                assert forall|a: int, j: int| 0 <= a < g && 0 <= j < groups[a].len()
                    implies update_zeile(zs[#[trigger] groups[a][j] as int], e[positions[a] as int]).1
                    && r[groups[a][j] as int] == update_zeile(zs[groups[a][j] as int], e[positions[a] as int]).0 by {
                    if a < g1 {
                        assert forall|x: int| 0 <= x < group.len() implies #[trigger] group[x] != groups[a][j] by {
                            assert(groups[a][j] < groups[g1 as int][x]);
                        }
                        assert(groups[a][j] < zs.len());
                    } else {
                        assert(group[j] == groups[a][j]);
                    }
                }
                assert forall|q: int| 0 <= q < zs.len() && (forall|a: int, j: int| 0 <= a < g && 0 <= j < groups[a].len() ==> #[trigger] groups[a][j] != q)
                    implies r[q] == zs[q] by {
                    assert forall|x: int| 0 <= x < group.len() implies #[trigger] group[x] != q by {
                        assert(groups[g1 as int][x] != q);
                    }
                    assert forall|a: int, j: int| 0 <= a < g1 && 0 <= j < groups[a].len() implies #[trigger] groups[a][j] != q by {
                        assert(groups[a][j] != q);
                    }
                }
            }
        }
    }
}

/// Where updating a timetable book succeeds, each line of the k-th group of timed lines
/// takes the times of the k-th entry with a departure: it names that entry's station and
/// has its arrival where the line has an arrival, and its departure where the line has a
/// departure.
pub proof fn lemma_update_buchfahrplan_lines_carry_times(e: Seq<FahrplanEintrag>, z: Seq<FahrplanZeile>)
    requires
        z.len() <= usize::MAX,
        update_buchfahrplan_result(e, z).1 is Ok,
    ensures
        zeilen_groups(z).len() == abfahrt_positions(e).len(),
        forall|a: int, j: int| 0 <= a < zeilen_groups(z).len() && 0 <= j < zeilen_groups(z)[a].len() ==> #[trigger] carries_times(
            z[zeilen_groups(z)[a][j] as int],
            update_buchfahrplan_result(e, z).0[zeilen_groups(z)[a][j] as int],
            e[abfahrt_positions(e)[a] as int],
        ),
{
    let groups = zeilen_groups(z);
    let positions = abfahrt_positions(e);
    lemma_timed_positions_in_range(z);
    lemma_timed_positions_rise(z);
    lemma_group_positions_in_range(z, timed_positions(z), z.len() as int);
    lemma_group_positions_ordered(z, timed_positions(z));
    lemma_process_groups_result(z, e, positions, groups, groups.len());
    let r = update_buchfahrplan_result(e, z).0;
    assert forall|a: int, j: int| 0 <= a < groups.len() && 0 <= j < groups[a].len() implies #[trigger] carries_times(
        z[groups[a][j] as int],
        r[groups[a][j] as int],
        e[positions[a] as int],
    ) by {
        lemma_update_zeile_carries(z[groups[a][j] as int], e[positions[a] as int]);
    }
}
} // verus!
