//! The parts of Zusi's train (`.trn`) and timetable-book (`.timetable.xml`) files that
//! the library reads and changes.
use crate::zeit::opt_in_range;
use vstd::prelude::*;

verus! {

/// A signal named in a timetable entry.
#[derive(Debug, Clone, PartialEq, Eq)]
pub struct FahrplanSignalEintrag {
    pub fahrplan_signal: String,
}

/// An entry of a train's timetable: a station ("Betriebsstelle") with arrival
/// ("Ankunft") and departure ("Abfahrt") as seconds of a date-time.
#[derive(Debug, Clone, PartialEq, Eq)]
pub struct FahrplanEintrag {
    pub betriebsstelle: String,
    pub ankunft: Option<i64>,
    pub abfahrt: Option<i64>,
    pub fahrplan_signal_eintraege: Vec<FahrplanSignalEintrag>,
}

impl FahrplanEintrag {
    /// Arrival and departure are date-times where present.
    pub open spec fn wf(&self) -> bool {
        opt_in_range(self.ankunft) && opt_in_range(self.abfahrt)
    }
}

/// All entries have date-times in range.
pub open spec fn eintraege_wf(entries: Seq<FahrplanEintrag>) -> bool {
    forall|k: int| 0 <= k < entries.len() ==> (#[trigger] entries[k]).wf()
}

} // verus!

verus! {

/// The date-time `t` shifted by `d` seconds; `None` when the result is out of range.
pub open spec fn shift_time(t: Option<i64>, d: int) -> Option<Option<i64>> {
    match t {
        None => Some(None),
        Some(v) => if crate::zeit::in_range(v + d) {
            Some(Some((v + d) as i64))
        } else {
            None
        },
    }
}

/// The entry with new arrival and departure.
pub open spec fn with_times(e: FahrplanEintrag, ankunft: Option<i64>, abfahrt: Option<i64>) -> FahrplanEintrag {
    FahrplanEintrag {
        betriebsstelle: e.betriebsstelle,
        ankunft,
        abfahrt,
        fahrplan_signal_eintraege: e.fahrplan_signal_eintraege,
    }
}

/// The entry with arrival and departure shifted by `d` seconds; `None` when one leaves
/// the range.
pub open spec fn shift_eintrag(e: FahrplanEintrag, d: int) -> Option<FahrplanEintrag> {
    match (shift_time(e.ankunft, d), shift_time(e.abfahrt, d)) {
        (Some(an), Some(ab)) => Some(with_times(e, an, ab)),
        _ => None,
    }
}

/// Replaces arrival and departure of the entry at `i`.
pub fn set_times(v: &mut Vec<FahrplanEintrag>, i: usize, ankunft: Option<i64>, abfahrt: Option<i64>)
    requires
        i < old(v)@.len(),
    ensures
        final(v)@ == old(v)@.update(i as int, with_times(old(v)@[i as int], ankunft, abfahrt)),
{
    let mut e = v.remove(i);
    e.ankunft = ankunft;
    e.abfahrt = abfahrt;
    v.insert(i, e);
    assert(v@ =~= old(v)@.update(i as int, with_times(old(v)@[i as int], ankunft, abfahrt)));
}

/// The date-time `t` shifted by `d` seconds, `None` where it leaves the range.
pub fn shift_time_checked(t: Option<i64>, d: i64) -> (r: Option<Option<i64>>)
    ensures
        r == shift_time(t, d as int),
{
    match t {
        None => Some(None),
        Some(v) => {
            let sum: i128 = v as i128 + d as i128;
            if crate::zeit::is_date_time(sum) {
                Some(Some(sum as i64))
            } else {
                None
            }
        },
    }
}

/// The date-time `t` shifted by `d` seconds.
pub fn shift_opt(t: Option<i64>, d: i64) -> (r: Option<i64>)
    requires
        shift_time(t, d as int) is Some,
    ensures
        Some(r) == shift_time(t, d as int),
{
    match t {
        None => None,
        Some(v) => Some(v + d),
    }
}

} // verus!

verus! {

/// The name of a station in a line of a timetable book.
#[derive(Debug, Clone, PartialEq, Eq)]
pub struct FahrplanName {
    pub fahrplan_name_text: String,
}

/// The arrival written in a line of a timetable book.
#[derive(Debug, Clone, Copy, PartialEq, Eq)]
pub struct FahrplanAnkunft {
    pub ankunft: i64,
}

/// The departure written in a line of a timetable book.
#[derive(Debug, Clone, Copy, PartialEq, Eq)]
pub struct FahrplanAbfahrt {
    pub abfahrt: i64,
}

/// A line of a timetable book ("Buchfahrplan"): the track it runs on (regular or
/// opposite track), and the station with its arrival and departure where the line
/// names one.
#[derive(Debug, Clone, PartialEq, Eq)]
pub struct FahrplanZeile {
    pub fahrplan_regelgleis_gegengleis: i32,
    pub fahrplan_name: Option<FahrplanName>,
    pub fahrplan_ankunft: Option<FahrplanAnkunft>,
    pub fahrplan_abfahrt: Option<FahrplanAbfahrt>,
}

impl FahrplanZeile {
    /// Arrival and departure are date-times where present.
    pub open spec fn wf(&self) -> bool {
        &&& (self.fahrplan_ankunft matches Some(a) ==> crate::zeit::in_range(a.ankunft as int))
        &&& (self.fahrplan_abfahrt matches Some(a) ==> crate::zeit::in_range(a.abfahrt as int))
    }
}

/// All lines have date-times in range.
pub open spec fn zeilen_wf(zeilen: Seq<FahrplanZeile>) -> bool {
    forall|k: int| 0 <= k < zeilen.len() ==> (#[trigger] zeilen[k]).wf()
}

/// The line with a new arrival and departure.
pub open spec fn zeile_with_times(z: FahrplanZeile, ankunft: Option<FahrplanAnkunft>, abfahrt: Option<FahrplanAbfahrt>) -> FahrplanZeile {
    FahrplanZeile {
        fahrplan_regelgleis_gegengleis: z.fahrplan_regelgleis_gegengleis,
        fahrplan_name: z.fahrplan_name,
        fahrplan_ankunft: ankunft,
        fahrplan_abfahrt: abfahrt,
    }
}

/// Replaces arrival and departure of the line at `i`.
pub fn set_zeile_times(v: &mut Vec<FahrplanZeile>, i: usize, ankunft: Option<FahrplanAnkunft>, abfahrt: Option<FahrplanAbfahrt>)
    requires
        i < old(v)@.len(),
    ensures
        final(v)@ == old(v)@.update(i as int, zeile_with_times(old(v)@[i as int], ankunft, abfahrt)),
{
    let mut z = v.remove(i);
    z.fahrplan_ankunft = ankunft;
    z.fahrplan_abfahrt = abfahrt;
    v.insert(i, z);
    assert(v@ =~= old(v)@.update(i as int, zeile_with_times(old(v)@[i as int], ankunft, abfahrt)));
}

/// Both lines name a station, the same one.
pub open spec fn same_name_text(a: FahrplanZeile, b: FahrplanZeile) -> bool {
    a.fahrplan_name matches Some(na) && b.fahrplan_name matches Some(nb) && na.fahrplan_name_text@ == nb.fahrplan_name_text@
}

/// Compares the station names of two lines.
pub fn name_texts_equal(a: &FahrplanZeile, b: &FahrplanZeile) -> (r: bool)
    ensures
        r == same_name_text(*a, *b),
{
    match (&a.fahrplan_name, &b.fahrplan_name) {
        (Some(na), Some(nb)) => na.fahrplan_name_text == nb.fahrplan_name_text,
        _ => false,
    }
}

/// Compares two arrivals.
pub fn ankuenfte_equal(a: &Option<FahrplanAnkunft>, b: &Option<FahrplanAnkunft>) -> (r: bool)
    ensures
        r == (*a == *b),
{
    match (a, b) {
        (Some(x), Some(y)) => x.ankunft == y.ankunft,
        (None, None) => true,
        _ => false,
    }
}

/// Compares two departures.
pub fn abfahrten_equal(a: &Option<FahrplanAbfahrt>, b: &Option<FahrplanAbfahrt>) -> (r: bool)
    ensures
        r == (*a == *b),
{
    match (a, b) {
        (Some(x), Some(y)) => x.abfahrt == y.abfahrt,
        (None, None) => true,
        _ => false,
    }
}

} // verus!

verus! {

/// All entries shifted by `d` seconds; `None` when a date-time leaves the range.
pub open spec fn shift_eintraege(es: Seq<FahrplanEintrag>, d: int) -> Option<Seq<FahrplanEintrag>> {
    if forall|k: int| 0 <= k < es.len() ==> (#[trigger] shift_eintrag(es[k], d)) is Some {
        Some(Seq::new(es.len(), |k: int| shift_eintrag(es[k], d).unwrap()))
    } else {
        None
    }
}

/// Whether all entries stay in the range of date-times when shifted by `d` seconds.
pub fn shift_eintraege_defined(es: &Vec<FahrplanEintrag>, d: i64) -> (r: bool)
    ensures
        r == shift_eintraege(es@, d as int) is Some,
{
    let mut k: usize = 0;
    while k < es.len()
        invariant
            k <= es@.len(),
            forall|m: int| 0 <= m < k ==> (#[trigger] shift_eintrag(es@[m], d as int)) is Some,
        decreases es@.len() - k,
    {
        let ankunft = shift_time_checked(es[k].ankunft, d);
        let abfahrt = shift_time_checked(es[k].abfahrt, d);
        if ankunft.is_none() || abfahrt.is_none() {
            assert(shift_eintrag(es@[k as int], d as int) is None);
            return false;
        }
        k = k + 1;
    }
    true
}

/// The texts of the signals of an entry.
pub open spec fn signal_texts(v: Seq<FahrplanSignalEintrag>) -> Seq<Seq<char>> {
    v.map_values(|s: FahrplanSignalEintrag| s.fahrplan_signal@)
}

/// Compares the signals of two entries.
pub fn signale_equal(a: &Vec<FahrplanSignalEintrag>, b: &Vec<FahrplanSignalEintrag>) -> (r: bool)
    ensures
        r == (signal_texts(a@) == signal_texts(b@)),
{
    if a.len() != b.len() {
        assert(signal_texts(a@).len() != signal_texts(b@).len());
        return false;
    }
    let mut k: usize = 0;
    while k < a.len()
        invariant
            a@.len() == b@.len(),
            k <= a@.len(),
            forall|m: int| 0 <= m < k ==> a@[m].fahrplan_signal@ == b@[m].fahrplan_signal@,
        decreases a@.len() - k,
    {
        if a[k].fahrplan_signal != b[k].fahrplan_signal {
            assert(signal_texts(a@)[k as int] != signal_texts(b@)[k as int]);
            return false;
        }
        k = k + 1;
    }
    assert(signal_texts(a@) =~= signal_texts(b@));
    true
}

} // verus!

verus! {

/// The arrival of a timetable-book line shifted by `d` seconds; `None` when it leaves
/// the range.
pub open spec fn shift_ankunft(a: Option<FahrplanAnkunft>, d: int) -> Option<Option<FahrplanAnkunft>> {
    match a {
        None => Some(None),
        Some(x) => if crate::zeit::in_range(x.ankunft + d) {
            Some(Some(FahrplanAnkunft { ankunft: (x.ankunft + d) as i64 }))
        } else {
            None
        },
    }
}

/// The departure of a timetable-book line shifted by `d` seconds; `None` when it leaves
/// the range.
pub open spec fn shift_abfahrt(a: Option<FahrplanAbfahrt>, d: int) -> Option<Option<FahrplanAbfahrt>> {
    match a {
        None => Some(None),
        Some(x) => if crate::zeit::in_range(x.abfahrt + d) {
            Some(Some(FahrplanAbfahrt { abfahrt: (x.abfahrt + d) as i64 }))
        } else {
            None
        },
    }
}

/// The line with arrival and departure shifted by `d` seconds; `None` when one leaves
/// the range.
pub open spec fn shift_zeile(z: FahrplanZeile, d: int) -> Option<FahrplanZeile> {
    match (shift_ankunft(z.fahrplan_ankunft, d), shift_abfahrt(z.fahrplan_abfahrt, d)) {
        (Some(an), Some(ab)) => Some(zeile_with_times(z, an, ab)),
        _ => None,
    }
}

/// All lines shifted by `d` seconds; `None` when a date-time leaves the range.
pub open spec fn shift_zeilen(zs: Seq<FahrplanZeile>, d: int) -> Option<Seq<FahrplanZeile>> {
    if forall|k: int| 0 <= k < zs.len() ==> (#[trigger] shift_zeile(zs[k], d)) is Some {
        Some(Seq::new(zs.len(), |k: int| shift_zeile(zs[k], d).unwrap()))
    } else {
        None
    }
}

/// Whether the time `t` of a line stays in the range of date-times when shifted by `d`
/// seconds.
fn line_time_shifts(t: Option<i64>, d: i64) -> (r: bool)
    ensures
        r == (t matches Some(v) ==> crate::zeit::in_range(v + d)),
{
    match t {
        None => true,
        Some(v) => crate::zeit::is_date_time(v as i128 + d as i128),
    }
}

/// Whether all lines stay in the range of date-times when shifted by `d` seconds.
pub fn shift_zeilen_defined(zs: &Vec<FahrplanZeile>, d: i64) -> (r: bool)
    ensures
        r == shift_zeilen(zs@, d as int) is Some,
{
    let mut k: usize = 0;
    while k < zs.len()
        invariant
            k <= zs@.len(),
            forall|m: int| 0 <= m < k ==> (#[trigger] shift_zeile(zs@[m], d as int)) is Some,
        decreases zs@.len() - k,
    {
        let an = line_time_shifts(match zs[k].fahrplan_ankunft {
            Some(a) => Some(a.ankunft),
            None => None,
        }, d);
        let ab = line_time_shifts(match zs[k].fahrplan_abfahrt {
            Some(a) => Some(a.abfahrt),
            None => None,
        }, d);
        if !an || !ab {
            assert(shift_zeile(zs@[k as int], d as int) is None);
            return false;
        }
        k = k + 1;
    }
    true
}

} // verus!

verus! {

impl FahrplanSignalEintrag {
    /// An equal signal entry.
    pub fn duplicate(&self) -> (r: Self)
        ensures
            r == *self,
    {
        FahrplanSignalEintrag { fahrplan_signal: self.fahrplan_signal.clone() }
    }
}

/// The two entries hold the same values: the same station, times and signals.
pub open spec fn eintrag_eq(a: FahrplanEintrag, b: FahrplanEintrag) -> bool {
    &&& a.betriebsstelle == b.betriebsstelle
    &&& a.ankunft == b.ankunft
    &&& a.abfahrt == b.abfahrt
    &&& a.fahrplan_signal_eintraege@ == b.fahrplan_signal_eintraege@
}

/// The two sequences hold entries with the same values, in the same order.
pub open spec fn eintraege_eq(a: Seq<FahrplanEintrag>, b: Seq<FahrplanEintrag>) -> bool {
    &&& a.len() == b.len()
    &&& forall|k: int| 0 <= k < a.len() ==> eintrag_eq(#[trigger] a[k], b[k])
}

/// Entries with the same values shift alike.
pub proof fn lemma_shift_eintraege_eq(a: Seq<FahrplanEintrag>, b: Seq<FahrplanEintrag>, d: int)
    requires
        eintraege_eq(a, b),
    ensures
        (shift_eintraege(a, d) is Some) == (shift_eintraege(b, d) is Some),
        shift_eintraege(a, d) is Some ==> eintraege_eq(shift_eintraege(a, d).unwrap(), shift_eintraege(b, d).unwrap()),
        eintraege_wf(a) == eintraege_wf(b),
{
    assert forall|k: int| 0 <= k < a.len() implies (#[trigger] shift_eintrag(a[k], d) is Some) == (shift_eintrag(b[k], d) is Some) by {
        assert(eintrag_eq(a[k], b[k]));
    }
    if !(shift_eintraege(a, d) is Some) {
        let k = choose|k: int| 0 <= k < a.len() && !(#[trigger] shift_eintrag(a[k], d) is Some);
        assert(!(shift_eintrag(b[k], d) is Some));
    }
    if !(shift_eintraege(b, d) is Some) {
        let k = choose|k: int| 0 <= k < b.len() && !(#[trigger] shift_eintrag(b[k], d) is Some);
        assert(!(shift_eintrag(a[k], d) is Some));
    }
    assert forall|k: int| 0 <= k < a.len() implies #[trigger] a[k].wf() == b[k].wf() by {
        assert(eintrag_eq(a[k], b[k]));
    }
    if eintraege_wf(a) {
        assert forall|k: int| 0 <= k < b.len() implies #[trigger] b[k].wf() by {
            assert(a[k].wf());
        }
    }
    if eintraege_wf(b) {
        assert forall|k: int| 0 <= k < a.len() implies #[trigger] a[k].wf() by {
            assert(b[k].wf());
        }
    }
}

impl FahrplanEintrag {
    /// An entry with the same values.
    pub fn duplicate(&self) -> (r: Self)
        ensures
            eintrag_eq(r, *self),
    {
        let mut signale: Vec<FahrplanSignalEintrag> = Vec::new();
        let mut k: usize = 0;
        while k < self.fahrplan_signal_eintraege.len()
            invariant
                k <= self.fahrplan_signal_eintraege@.len(),
                signale@ == self.fahrplan_signal_eintraege@.subrange(0, k as int),
            decreases self.fahrplan_signal_eintraege@.len() - k,
        {
            signale.push(self.fahrplan_signal_eintraege[k].duplicate());
            k = k + 1;
        }
        assert(signale@ =~= self.fahrplan_signal_eintraege@);
        FahrplanEintrag {
            betriebsstelle: self.betriebsstelle.clone(),
            ankunft: self.ankunft,
            abfahrt: self.abfahrt,
            fahrplan_signal_eintraege: signale,
        }
    }
}

impl FahrplanZeile {
    /// An equal line.
    pub fn duplicate(&self) -> (r: Self)
        ensures
            r == *self,
    {
        let name = match &self.fahrplan_name {
            Some(n) => Some(FahrplanName { fahrplan_name_text: n.fahrplan_name_text.clone() }),
            None => None,
        };
        FahrplanZeile {
            fahrplan_regelgleis_gegengleis: self.fahrplan_regelgleis_gegengleis,
            fahrplan_name: name,
            fahrplan_ankunft: self.fahrplan_ankunft,
            fahrplan_abfahrt: self.fahrplan_abfahrt,
        }
    }
}

/// Entries with the same values.
pub fn duplicate_eintraege(v: &Vec<FahrplanEintrag>) -> (r: Vec<FahrplanEintrag>)
    ensures
        eintraege_eq(r@, v@),
{
    let mut r: Vec<FahrplanEintrag> = Vec::new();
    let mut k: usize = 0;
    while k < v.len()
        invariant
            k <= v@.len(),
            eintraege_eq(r@, v@.subrange(0, k as int)),
        decreases v@.len() - k,
    {
        r.push(v[k].duplicate());
        k = k + 1;
    }
    assert(v@.subrange(0, v@.len() as int) =~= v@);
    r
}

/// Equal lines.
pub fn duplicate_zeilen(v: &Vec<FahrplanZeile>) -> (r: Vec<FahrplanZeile>)
    ensures
        r@ == v@,
{
    let mut r: Vec<FahrplanZeile> = Vec::new();
    let mut k: usize = 0;
    while k < v.len()
        invariant
            k <= v@.len(),
            r@ == v@.subrange(0, k as int),
        decreases v@.len() - k,
    {
        r.push(v[k].duplicate());
        k = k + 1;
    }
    assert(r@ =~= v@);
    r
}

} // verus!

verus! {

/// Moving entries by `d` seconds and then back by `d` gives the entries back.
pub proof fn lemma_shift_eintraege_undone(es: Seq<FahrplanEintrag>, d: int)
    requires
        eintraege_wf(es),
        shift_eintraege(es, d) is Some,
    ensures
        shift_eintraege(shift_eintraege(es, d).unwrap(), -d) == Some(es),
{
    let moved = shift_eintraege(es, d).unwrap();
    assert forall|k: int| 0 <= k < moved.len() implies #[trigger] shift_eintrag(moved[k], -d) == Some(es[k]) by {
        assert(shift_eintrag(es[k], d) is Some);
        assert(es[k].wf());
    }
    assert(shift_eintraege(moved, -d).unwrap() =~= es);
}

/// Moving timetable-book lines by `d` seconds and then back by `d` gives the lines back.
pub proof fn lemma_shift_zeilen_undone(zs: Seq<FahrplanZeile>, d: int)
    requires
        zeilen_wf(zs),
        shift_zeilen(zs, d) is Some,
    ensures
        shift_zeilen(shift_zeilen(zs, d).unwrap(), -d) == Some(zs),
{
    let moved = shift_zeilen(zs, d).unwrap();
    assert forall|k: int| 0 <= k < moved.len() implies #[trigger] shift_zeile(moved[k], -d) == Some(zs[k]) by {
        assert(shift_zeile(zs[k], d) is Some);
        assert(zs[k].wf());
    }
    assert(shift_zeilen(moved, -d).unwrap() =~= zs);
}

} // verus!
