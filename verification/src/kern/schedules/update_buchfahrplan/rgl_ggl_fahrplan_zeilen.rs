//! Lines of a timetable book that describe the same station stop on different tracks.
use crate::serde_helpers::append_str;
use crate::text::{int_decimal, push_int_decimal, string_push};
use crate::zeit::{date_time_text, format_date_time};
use vstd::std_specs::iter::IteratorSpec;
use crate::zusi::{abfahrten_equal, ankuenfte_equal, name_texts_equal, same_name_text, FahrplanZeile};
use std::collections::BTreeSet;
use vstd::prelude::*;

verus! {

broadcast use vstd::laws_cmp::group_laws_cmp;

/// A group of lines, given by their positions in the timetable book, that name the same
/// station with the same arrival and departure, each on a track of its own.
#[derive(Debug)]
pub struct RglGglFahrplanZeilen {
    rgl_ggl: BTreeSet<i32>,
    zeilen: Vec<usize>,
}

/// The group `group` (positions into `all`) takes the line at `p`: it names the same
/// station, arrival and departure as the first line of the group, and runs on a track
/// that no line of the group runs on.
pub open spec fn joins_group(all: Seq<FahrplanZeile>, group: Seq<usize>, p: usize) -> bool {
    let first = all[group[0] as int];
    let new = all[p as int];
    &&& same_name_text(first, new)
    &&& first.fahrplan_ankunft == new.fahrplan_ankunft
    &&& first.fahrplan_abfahrt == new.fahrplan_abfahrt
    &&& !(exists|k: int| 0 <= k < group.len() && (#[trigger] all[group[k] as int]).fahrplan_regelgleis_gegengleis == new.fahrplan_regelgleis_gegengleis)
}

/// The tracks of the lines at `positions`.
pub open spec fn tracks_of(all: Seq<FahrplanZeile>, positions: Seq<usize>) -> Set<i32> {
    Set::new(|t: i32| exists|k: int| 0 <= k < positions.len() && (#[trigger] all[positions[k] as int]).fahrplan_regelgleis_gegengleis == t)
}

/// The lines at `positions` run on tracks that differ from each other.
pub open spec fn tracks_distinct(all: Seq<FahrplanZeile>, positions: Seq<usize>) -> bool {
    forall|k: int, m: int|
        0 <= k < m < positions.len() ==> (#[trigger] all[positions[k] as int]).fahrplan_regelgleis_gegengleis
            != (#[trigger] all[positions[m] as int]).fahrplan_regelgleis_gegengleis
}

/// Lines on tracks that differ from each other have as many tracks as lines.
pub proof fn lemma_tracks_of_len(all: Seq<FahrplanZeile>, positions: Seq<usize>)
    requires
        tracks_distinct(all, positions),
    ensures
        tracks_of(all, positions).finite(),
        tracks_of(all, positions).len() == positions.len(),
    decreases positions.len(),
{
    if positions.len() == 0 {
        assert(tracks_of(all, positions) =~= Set::<i32>::empty());
    } else {
        let init = positions.drop_last();
        let t = all[positions.last() as int].fahrplan_regelgleis_gegengleis;
        assert forall|k: int, m: int| 0 <= k < m < init.len() implies (#[trigger] all[init[k] as int]).fahrplan_regelgleis_gegengleis
            != (#[trigger] all[init[m] as int]).fahrplan_regelgleis_gegengleis by {
            assert(all[positions[k] as int] == all[init[k] as int]);
            assert(all[positions[m] as int] == all[init[m] as int]);
        }
        lemma_tracks_of_len(all, init);
        assert forall|u: i32| tracks_of(all, positions).contains(u) <==> #[trigger] tracks_of(all, init).insert(t).contains(u) by {
            if tracks_of(all, positions).contains(u) {
                let k = choose|k: int| 0 <= k < positions.len() && (#[trigger] all[positions[k] as int]).fahrplan_regelgleis_gegengleis == u;
                if k < init.len() {
                    assert(all[init[k] as int].fahrplan_regelgleis_gegengleis == u);
                }
            }
            if tracks_of(all, init).contains(u) {
                let k = choose|k: int| 0 <= k < init.len() && (#[trigger] all[init[k] as int]).fahrplan_regelgleis_gegengleis == u;
                assert(all[positions[k] as int].fahrplan_regelgleis_gegengleis == u);
            }
            if u == t {
                assert(all[positions[positions.len() - 1] as int].fahrplan_regelgleis_gegengleis == u);
            }
        }
        assert(tracks_of(all, positions) =~= tracks_of(all, init).insert(t));
        assert(!tracks_of(all, init).contains(t)) by {
            if tracks_of(all, init).contains(t) {
                let k = choose|k: int| 0 <= k < init.len() && (#[trigger] all[init[k] as int]).fahrplan_regelgleis_gegengleis == t;
                assert(all[positions[k] as int].fahrplan_regelgleis_gegengleis == t);
                assert(all[positions[positions.len() - 1] as int].fahrplan_regelgleis_gegengleis == t);
            }
        }
    }
}

/// `q` holds the tracks of `tracks`, each once, in rising order.
pub open spec fn tracks_rising(q: Seq<i32>, tracks: Set<i32>) -> bool {
    &&& q.to_set() == tracks
    &&& forall|k: int, m: int| 0 <= k < m < q.len() ==> q[k] < q[m]
}

/// The decimal texts of `tracks`, joined by `, `.
pub open spec fn tracks_text(tracks: Seq<i32>) -> Seq<char>
    decreases tracks.len(),
{
    if tracks.len() == 0 {
        Seq::empty()
    } else if tracks.len() == 1 {
        int_decimal(tracks[0] as int)
    } else {
        tracks_text(tracks.drop_last()) + seq![',', ' '] + int_decimal(tracks.last() as int)
    }
}

/// An optional date-time as it is written with `{:?}`: `Some(` and the date-time's text
/// and `)`, or `None`.
pub open spec fn opt_time_text(t: Option<i64>) -> Seq<char> {
    match t {
        Some(v) => seq!['S', 'o', 'm', 'e', '('] + date_time_text(v as int) + seq![')'],
        None => seq!['N', 'o', 'n', 'e'],
    }
}

/// The text of a group whose first line is `first` and whose tracks in rising order are
/// `q`: `<name> [<tracks>]: <arrival> - <departure>`.
pub open spec fn group_text(first: FahrplanZeile, q: Seq<i32>) -> Seq<char> {
    let name = match first.fahrplan_name {
        Some(n) => n.fahrplan_name_text@,
        None => Seq::empty(),
    };
    let ankunft = match first.fahrplan_ankunft {
        Some(a) => Some(a.ankunft),
        None => None,
    };
    let abfahrt = match first.fahrplan_abfahrt {
        Some(a) => Some(a.abfahrt),
        None => None,
    };
    name + seq![' ', '['] + tracks_text(q) + seq![']', ':', ' '] + opt_time_text(ankunft) + seq![' ', '-', ' '] + opt_time_text(abfahrt)
}

/// A set of tracks is walked in rising order, each track once.
proof fn lemma_tracks_iterated_rising(tracks: &BTreeSet<i32>)
    ensures
        tracks_rising(vstd::std_specs::btree::spec_btree_keys_iter(tracks).remaining().unref(), tracks@),
{
    broadcast use vstd::std_specs::btree::group_btree_axioms;
    vstd::std_specs::btree::axiom_spec_btree_keys_iter(tracks);
    let rem = vstd::std_specs::btree::spec_btree_keys_iter(tracks).remaining();
    let q = rem.unref();
    assert(vstd::laws_cmp::obeys_cmp::<i32>());
    assert(vstd::laws_cmp::obeys_cmp::<&i32>());
    assert forall|k: int, m: int| 0 <= k < m < q.len() implies q[k] < q[m] by {
        assert(vstd::std_specs::cmp::OrdSpec::cmp_spec(&rem[k], &rem[m]) is Less);
    }
}

/// Appends the tracks of `tracks` in the order in which the set is walked, joined by `, `.
fn push_tracks(s: &mut String, tracks: &BTreeSet<i32>)
    ensures
        final(s)@ == old(s)@ + tracks_text(vstd::std_specs::btree::spec_btree_keys_iter(tracks).remaining().unref()),
{
    let ghost start = s@;
    let ghost q = vstd::std_specs::btree::spec_btree_keys_iter(tracks).remaining().unref();
    let mut started = false;
    for t in it: tracks.iter()
        invariant
            it.seq().unref() == q,
            s@ == start + tracks_text(q.take(it.index() as int)),
            started == (it.index() > 0),
    {
        if started {
            string_push(s, ',');
            string_push(s, ' ');
        }
        push_int_decimal(s, *t as i64);
        started = true;
        proof {
            assert(q.take(it.index() + 1).drop_last() =~= q.take(it.index() as int));
        }
    }
    proof {
        assert(q.take(q.len() as int) =~= q);
    }
}

/// Appends `]: `, the arrival, ` - ` and the departure of `first`.
fn push_group_times(s: &mut String, first: &FahrplanZeile)
    requires
        first.wf(),
    ensures
        final(s)@ == old(s)@ + seq![']', ':', ' '] + opt_time_text(match first.fahrplan_ankunft {
            Some(a) => Some(a.ankunft),
            None => None,
        }) + seq![' ', '-', ' '] + opt_time_text(match first.fahrplan_abfahrt {
            Some(a) => Some(a.abfahrt),
            None => None,
        }),
{
    string_push(s, ']');
    string_push(s, ':');
    string_push(s, ' ');
    let ghost mid = s@;
    push_opt_time(s, match first.fahrplan_ankunft {
        Some(a) => Some(a.ankunft),
        None => None,
    });
    string_push(s, ' ');
    string_push(s, '-');
    string_push(s, ' ');
    push_opt_time(s, match first.fahrplan_abfahrt {
        Some(a) => Some(a.abfahrt),
        None => None,
    });
    assert(final(s)@ =~= old(s)@ + seq![']', ':', ' '] + opt_time_text(match first.fahrplan_ankunft {
        Some(a) => Some(a.ankunft),
        None => None,
    }) + seq![' ', '-', ' '] + opt_time_text(match first.fahrplan_abfahrt {
        Some(a) => Some(a.abfahrt),
        None => None,
    }));
}

/// Appends an optional date-time as it is written with `{:?}`.
fn push_opt_time(s: &mut String, t: Option<i64>)
    requires
        crate::zeit::opt_in_range(t),
    ensures
        final(s)@ == old(s)@ + opt_time_text(t),
{
    match t {
        Some(v) => {
            string_push(s, 'S');
            string_push(s, 'o');
            string_push(s, 'm');
            string_push(s, 'e');
            string_push(s, '(');
            let text = format_date_time(v);
            append_str(s, text.as_str());
            string_push(s, ')');
            assert(final(s)@ =~= old(s)@ + opt_time_text(t));
        },
        None => {
            string_push(s, 'N');
            string_push(s, 'o');
            string_push(s, 'n');
            string_push(s, 'e');
            assert(final(s)@ =~= old(s)@ + opt_time_text(t));
        },
    }
}

/// A group of lines with its own copies of them.
#[derive(Debug, Clone, PartialEq)]
pub struct OwnedRglGglFahrplanZeilen {
    rgl_ggl: BTreeSet<i32>,
    zeilen: Vec<FahrplanZeile>,
}

impl RglGglFahrplanZeilen {
    /// The positions of the lines of the group, in order.
    pub closed spec fn positions(&self) -> Seq<usize> {
        self.zeilen@
    }

    /// The tracks that the group knows.
    pub closed spec fn tracks(&self) -> Set<i32> {
        self.rgl_ggl@
    }

    /// The group holds at least one line, its positions lie in `all`, its lines run on
    /// tracks that differ from each other, and it knows the tracks of its lines.
    pub closed spec fn wf(&self, all: Seq<FahrplanZeile>) -> bool {
        &&& self.zeilen@.len() > 0
        &&& forall|k: int| 0 <= k < self.zeilen@.len() ==> #[trigger] self.zeilen@[k] < all.len()
        &&& tracks_distinct(all, self.zeilen@)
        &&& self.rgl_ggl@ == tracks_of(all, self.zeilen@)
    }

    /// A well-formed group holds lines, at positions inside `all`, one line for each of
    /// its tracks: the lines run on tracks that differ from each other, and the group
    /// knows as many tracks as it holds lines.
    pub proof fn lemma_wf_positions(&self, all: Seq<FahrplanZeile>)
        requires
            self.wf(all),
        ensures
            self.positions().len() > 0,
            forall|k: int| 0 <= k < self.positions().len() ==> #[trigger] self.positions()[k] < all.len(),
            tracks_distinct(all, self.positions()),
            self.tracks() == tracks_of(all, self.positions()),
            self.tracks().finite(),
            self.tracks().len() == self.positions().len(),
    {
        lemma_tracks_of_len(all, self.zeilen@);
    }

    /// A group of the line at `position`.
    pub fn new(all: &Vec<FahrplanZeile>, position: usize) -> (r: Self)
        requires
            position < all@.len(),
        ensures
            r.wf(all@),
            r.positions() == seq![position],
    {
        let mut rgl_ggl = BTreeSet::new();
        rgl_ggl.insert(all[position].fahrplan_regelgleis_gegengleis);
        let mut zeilen = Vec::new();
        zeilen.push(position);
        let r = RglGglFahrplanZeilen { rgl_ggl, zeilen };
        proof {
            assert(r.zeilen@[0] == position);
            assert(r.rgl_ggl@ =~= tracks_of(all@, r.zeilen@)) by {
                assert forall|t: i32| tracks_of(all@, r.zeilen@).contains(t) implies r.rgl_ggl@.contains(t) by {
                    let k = choose|k: int| 0 <= k < r.zeilen@.len() && (#[trigger] all@[r.zeilen@[k] as int]).fahrplan_regelgleis_gegengleis == t;
                    assert(k == 0);
                }
                assert(tracks_of(all@, r.zeilen@).contains(all@[position as int].fahrplan_regelgleis_gegengleis)) by {
                    assert(all@[r.zeilen@[0] as int].fahrplan_regelgleis_gegengleis == all@[position as int].fahrplan_regelgleis_gegengleis);
                }
            }
        }
        r
    }

    /// The first line of the group.
    pub fn first<'a>(&self, all: &'a Vec<FahrplanZeile>) -> (r: &'a FahrplanZeile)
        requires
            self.wf(all@),
        ensures
            *r == all@[self.positions()[0] as int],
    {
        &all[self.zeilen[0]]
    }

    /// The positions of the lines of the group.
    pub fn zeilen(&self) -> (r: &Vec<usize>)
        ensures
            r@ == self.positions(),
    {
        &self.zeilen
    }

    /// Adds the line at `new` to the group when the group takes it (see `joins_group`),
    /// and gives it back otherwise.
    pub fn insert_or_return(&mut self, all: &Vec<FahrplanZeile>, new: usize) -> (r: Option<usize>)
        requires
            old(self).wf(all@),
            new < all@.len(),
        ensures
            final(self).wf(all@),
            joins_group(all@, old(self).positions(), new) ==> r is None && final(self).positions() == old(self).positions().push(new),
            !joins_group(all@, old(self).positions(), new) ==> r == Some(new) && final(self).positions() == old(self).positions(),
    {
        let zeile = &all[self.zeilen[0]];
        let new_zeile = &all[new];
        let text_equals = name_texts_equal(zeile, new_zeile);
        if text_equals && ankuenfte_equal(&zeile.fahrplan_ankunft, &new_zeile.fahrplan_ankunft)
            && abfahrten_equal(&zeile.fahrplan_abfahrt, &new_zeile.fahrplan_abfahrt) {
            let ghost before = self.zeilen@;
            let t = new_zeile.fahrplan_regelgleis_gegengleis;
            if self.rgl_ggl.insert(t) {
                self.zeilen.push(new);
                proof {
                    assert(!tracks_of(all@, before).contains(t));
                    assert(self.rgl_ggl@ =~= tracks_of(all@, self.zeilen@)) by {
                        assert forall|u: i32| tracks_of(all@, self.zeilen@).contains(u) implies self.rgl_ggl@.contains(u) by {
                            let k = choose|k: int| 0 <= k < self.zeilen@.len() && (#[trigger] all@[self.zeilen@[k] as int]).fahrplan_regelgleis_gegengleis == u;
                            if k < before.len() {
                                assert(all@[before[k] as int].fahrplan_regelgleis_gegengleis == u);
                                assert(tracks_of(all@, before).contains(u));
                            }
                        }
                        assert forall|u: i32| self.rgl_ggl@.contains(u) implies tracks_of(all@, self.zeilen@).contains(u) by {
                            if u == t {
                                assert(all@[self.zeilen@[before.len() as int] as int].fahrplan_regelgleis_gegengleis == u);
                            } else {
                                assert(tracks_of(all@, before).contains(u));
                                let k = choose|k: int| 0 <= k < before.len() && (#[trigger] all@[before[k] as int]).fahrplan_regelgleis_gegengleis == u;
                                assert(all@[self.zeilen@[k] as int].fahrplan_regelgleis_gegengleis == u);
                            }
                        }
                    }
                    assert(!(exists|k: int| 0 <= k < before.len() && (#[trigger] all@[before[k] as int]).fahrplan_regelgleis_gegengleis == t));
                    assert forall|k: int, m: int| 0 <= k < m < self.zeilen@.len() implies (#[trigger] all@[self.zeilen@[k] as int]).fahrplan_regelgleis_gegengleis
                        != (#[trigger] all@[self.zeilen@[m] as int]).fahrplan_regelgleis_gegengleis by {
                        if m == before.len() {
                            assert(all@[before[k] as int].fahrplan_regelgleis_gegengleis != t);
                        } else {
                            assert(all@[before[k] as int] == all@[self.zeilen@[k] as int]);
                            assert(all@[before[m] as int] == all@[self.zeilen@[m] as int]);
                        }
                    }
                }
                None
            } else {
                proof {
                    assert(tracks_of(all@, before).contains(t));
                    let k = choose|k: int| 0 <= k < before.len() && (#[trigger] all@[before[k] as int]).fahrplan_regelgleis_gegengleis == t;
                    assert(all@[before[k] as int].fahrplan_regelgleis_gegengleis == t);
                    assert(self.rgl_ggl@ =~= tracks_of(all@, before));
                }
                Some(new)
            }
        } else {
            Some(new)
        }
    }

    /// The group with copies of its lines; it knows one track for each of them.
    pub fn into_owned(&self, all: &Vec<FahrplanZeile>) -> (r: OwnedRglGglFahrplanZeilen)
        requires
            self.wf(all@),
        ensures
            r.lines().len() == self.positions().len(),
            forall|k: int| 0 <= k < r.lines().len() ==> #[trigger] r.lines()[k] == all@[self.positions()[k] as int],
            r.tracks() == tracks_of(all@, self.positions()),
            r.tracks().finite(),
            r.tracks().len() == r.lines().len(),
    {
        proof {
            lemma_tracks_of_len(all@, self.zeilen@);
        }
        let mut zeilen: Vec<FahrplanZeile> = Vec::new();
        let mut k: usize = 0;
        while k < self.zeilen.len()
            invariant
                self.wf(all@),
                k <= self.zeilen@.len(),
                zeilen@.len() == k,
                forall|m: int| 0 <= m < k ==> #[trigger] zeilen@[m] == all@[self.zeilen@[m] as int],
            decreases self.zeilen@.len() - k,
        {
            let z = &all[self.zeilen[k]];
            zeilen.push(FahrplanZeile {
                fahrplan_regelgleis_gegengleis: z.fahrplan_regelgleis_gegengleis,
                fahrplan_name: match &z.fahrplan_name {
                    Some(n) => Some(crate::zusi::FahrplanName { fahrplan_name_text: n.fahrplan_name_text.clone() }),
                    None => None,
                },
                fahrplan_ankunft: z.fahrplan_ankunft,
                fahrplan_abfahrt: z.fahrplan_abfahrt,
            });
            k = k + 1;
        }
        OwnedRglGglFahrplanZeilen { rgl_ggl: self.rgl_ggl.clone(), zeilen }
    }
}

impl OwnedRglGglFahrplanZeilen {
    /// A group of the given tracks and lines.
    pub fn new(rgl_ggl: BTreeSet<i32>, zeilen: Vec<FahrplanZeile>) -> (r: Self)
        ensures
            r.tracks() == rgl_ggl@,
            r.lines() == zeilen@,
    {
        OwnedRglGglFahrplanZeilen { rgl_ggl, zeilen }
    }

    /// The tracks of the lines.
    pub closed spec fn tracks(&self) -> Set<i32> {
        self.rgl_ggl@
    }

    /// The lines.
    pub closed spec fn lines(&self) -> Seq<FahrplanZeile> {
        self.zeilen@
    }

    /// The text of the group: the station name of its first line (empty where it has
    /// none), its tracks in rising order, and the arrival and departure of its first line,
    /// as `tracks_rising` and `group_text` say.
    pub fn to_string(&self) -> (r: String)
        requires
            self.lines().len() > 0,
            self.lines()[0].wf(),
        ensures
            exists|q: Seq<i32>| tracks_rising(q, self.tracks()) && r@ == group_text(self.lines()[0], q),
    {
        let first = &self.zeilen[0];
        let mut r = String::new();
        match &first.fahrplan_name {
            Some(n) => append_str(&mut r, n.fahrplan_name_text.as_str()),
            None => {},
        }
        string_push(&mut r, ' ');
        string_push(&mut r, '[');
        push_tracks(&mut r, &self.rgl_ggl);
        push_group_times(&mut r, first);
        proof {
            let q = vstd::std_specs::btree::spec_btree_keys_iter(&self.rgl_ggl).remaining().unref();
            lemma_tracks_iterated_rising(&self.rgl_ggl);
            assert(r@ =~= group_text(self.zeilen@[0], q));
            assert(tracks_rising(q, self.tracks()) && r@ == group_text(self.lines()[0], q));
        }
        r
    }
}

} // verus!
