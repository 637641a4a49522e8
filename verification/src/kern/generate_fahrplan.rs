//! Generates a timetable: its trains, in the order of their numbers.
pub mod generate_zug;

use crate::kern::copy_delay::zug_nummer::{parse_zug_nummer, ZugNummer};
use vstd::prelude::*;

verus! {

/// The numbers by which a train is ordered: those of its train number, or none where
/// the number cannot be read.
pub open spec fn sort_key(nummer: Seq<char>) -> Seq<u32> {
    match parse_zug_nummer(nummer) {
        Ok(v) => v,
        Err(_) => Seq::empty(),
    }
}

/// `a` comes before `b`: at the first place where they differ, `a` has the smaller
/// number, or `a` ends there.
pub open spec fn numbers_before(a: Seq<u32>, b: Seq<u32>) -> bool
    decreases a.len(),
{
    if a.len() == 0 {
        b.len() > 0
    } else if b.len() == 0 {
        false
    } else if a[0] != b[0] {
        a[0] < b[0]
    } else {
        numbers_before(a.drop_first(), b.drop_first())
    }
}

/// Coming before is transitive.
pub proof fn lemma_numbers_before_transitive(a: Seq<u32>, b: Seq<u32>, c: Seq<u32>)
    requires
        numbers_before(a, b),
        numbers_before(b, c),
    ensures
        numbers_before(a, c),
    decreases a.len(),
{
    if a.len() > 0 && b.len() > 0 && c.len() > 0 && a[0] == b[0] && b[0] == c[0] {
        lemma_numbers_before_transitive(a.drop_first(), b.drop_first(), c.drop_first());
    }
}

/// Nothing comes before itself.
pub proof fn lemma_numbers_before_irreflexive(a: Seq<u32>)
    ensures
        !numbers_before(a, a),
    decreases a.len(),
{
    if a.len() > 0 {
        lemma_numbers_before_irreflexive(a.drop_first());
    }
}

/// `perm` lists the places of `zuege` in the order of their numbers, keeping the order
/// of trains with equal numbers: each place once, numbers never falling, equal numbers in
/// their first order.
pub open spec fn is_sorted_order<Z>(zuege: Seq<(String, Z)>, perm: Seq<int>) -> bool {
    &&& perm.len() == zuege.len()
    &&& forall|k: int| 0 <= k < perm.len() ==> 0 <= #[trigger] perm[k] < zuege.len()
    &&& forall|a: int, b: int| 0 <= a < b < perm.len() ==> #[trigger] perm[a] != #[trigger] perm[b]
    &&& forall|a: int, b: int| 0 <= a < b < perm.len()
        ==> !numbers_before(#[trigger] sort_key(zuege[perm[b]].0@), #[trigger] sort_key(zuege[perm[a]].0@))
    &&& forall|a: int, b: int| 0 <= a < b < perm.len() && sort_key(zuege[perm[a]].0@) == sort_key(zuege[perm[b]].0@)
        ==> #[trigger] perm[a] < #[trigger] perm[b]
}

/// Whether `a` comes before `b`, as `numbers_before` says.
fn numbers_less(a: &Vec<u32>, b: &Vec<u32>) -> (r: bool)
    ensures
        r == numbers_before(a@, b@),
{
    let mut i: usize = 0;
    assert(a@.skip(0) =~= a@);
    assert(b@.skip(0) =~= b@);
    while i < a.len() && i < b.len()
        invariant
            i <= a@.len(),
            i <= b@.len(),
            numbers_before(a@, b@) == numbers_before(a@.skip(i as int), b@.skip(i as int)),
        decreases a@.len() - i,
    {
        if a[i] != b[i] {
            return a[i] < b[i];
        }
        assert(a@.skip(i as int).drop_first() =~= a@.skip(i as int + 1));
        assert(b@.skip(i as int).drop_first() =~= b@.skip(i as int + 1));
        i = i + 1;
    }
    i == a.len() && i < b.len()
}

/// The numbers of a train number, or none where it cannot be read.
fn key_of(nummer: &String) -> (r: Vec<u32>)
    ensures
        r@ == sort_key(nummer@),
{
    match ZugNummer::from_str(nummer.as_str()) {
        Ok(z) => z.0,
        Err(_) => Vec::new(),
    }
}

/// Orders trains, given with their train numbers, by those numbers, read as lists of
/// numbers compared place by place; trains with equal numbers, or with numbers that
/// cannot be read (which come first), keep their order.
pub fn sort_zuege<Z>(zuege: Vec<(String, Z)>) -> (r: Vec<Z>)
    ensures
        r@.len() == zuege@.len(),
        exists|perm: Seq<int>| is_sorted_order(zuege@, perm) && forall|k: int| 0 <= k < r@.len() ==> r@[k] == #[trigger] zuege@[perm[k]].1,
{
    let ghost z = zuege@;
    let n = zuege.len();
    let mut rest = zuege;
    let mut sorted: Vec<(Vec<u32>, Z)> = Vec::new();
    let ghost mut perm: Seq<int> = Seq::empty();
    let mut i: usize = 0;
    while i < n
        invariant
            n == z.len(),
            i <= n,
            rest@ == z.subrange(i as int, n as int),
            sorted@.len() == i,
            perm.len() == i,
            forall|k: int| 0 <= k < i ==> 0 <= #[trigger] perm[k] < i,
            forall|a: int, b: int| 0 <= a < b < i ==> #[trigger] perm[a] != #[trigger] perm[b],
            forall|k: int| 0 <= k < i ==> (#[trigger] sorted@[k]).0@ == sort_key(z[perm[k]].0@) && sorted@[k].1 == z[perm[k]].1,
            forall|a: int, b: int| 0 <= a < b < i ==> !numbers_before(#[trigger] sorted@[b].0@, #[trigger] sorted@[a].0@),
            forall|a: int, b: int| 0 <= a < b < i && sorted@[a].0@ == sorted@[b].0@ ==> #[trigger] perm[a] < #[trigger] perm[b],
        decreases n - i,
    {
        let (nummer, zug) = rest.remove(0);
        assert(nummer == z[i as int].0 && zug == z[i as int].1);
        let key = key_of(&nummer);
        let mut p: usize = 0;
        while p < sorted.len() && !numbers_less(&key, &sorted[p].0)
            invariant
                p <= sorted@.len(),
                forall|a: int| 0 <= a < p ==> !numbers_before(key@, #[trigger] sorted@[a].0@),
            decreases sorted@.len() - p,
        {
            p = p + 1;
        }
        let ghost old_sorted = sorted@;
        let ghost old_perm = perm;
        sorted.insert(p, (key, zug));
        proof {
            perm = old_perm.insert(p as int, i as int);
            assert forall|a: int, b: int| 0 <= a < b < i + 1 implies !numbers_before(#[trigger] sorted@[b].0@, #[trigger] sorted@[a].0@) by {
                if b == p {
                    assert(sorted@[a] == old_sorted[a]);
                    assert(sorted@[b].0@ == key@);
                } else if a == p {
                    assert(sorted@[b] == old_sorted[b - 1]);
                    assert(sorted@[a].0@ == key@);
                    lemma_numbers_before_irreflexive(old_sorted[b - 1].0@);
                    if numbers_before(old_sorted[b - 1].0@, key@) {
                        if p < old_sorted.len() {
                            assert(numbers_before(key@, old_sorted[p as int].0@));
                            if b - 1 > p {
                                assert(!numbers_before(old_sorted[b - 1].0@, old_sorted[p as int].0@));
                            }
                            lemma_numbers_before_transitive(old_sorted[b - 1].0@, key@, old_sorted[p as int].0@);
                        }
                    }
                } else {
                    let oa = if a < p { a } else { a - 1 };
                    let ob = if b < p { b } else { b - 1 };
                    assert(sorted@[a] == old_sorted[oa]);
                    assert(sorted@[b] == old_sorted[ob]);
                }
            }
            assert forall|a: int, b: int| 0 <= a < b < i + 1 && sorted@[a].0@ == sorted@[b].0@ implies #[trigger] perm[a] < #[trigger] perm[b] by {
                if b == p {
                    assert(perm[b] == i);
                } else if a == p {
                    assert(sorted@[b] == old_sorted[b - 1]);
                    if p < old_sorted.len() {
                        assert(numbers_before(key@, old_sorted[p as int].0@));
                        if b - 1 > p {
                            assert(!numbers_before(old_sorted[b - 1].0@, old_sorted[p as int].0@));
                        }
                    }
                } else {
                    let oa = if a < p { a } else { a - 1 };
                    let ob = if b < p { b } else { b - 1 };
                    assert(sorted@[a] == old_sorted[oa]);
                    assert(sorted@[b] == old_sorted[ob]);
                    assert(perm[a] == old_perm[oa]);
                    assert(perm[b] == old_perm[ob]);
                }
            }
            assert forall|a: int, b: int| 0 <= a < b < i + 1 implies #[trigger] perm[a] != #[trigger] perm[b] by {
                if a != p && b != p {
                    let oa = if a < p { a } else { a - 1 };
                    let ob = if b < p { b } else { b - 1 };
                    assert(perm[a] == old_perm[oa]);
                    assert(perm[b] == old_perm[ob]);
                } else if a == p {
                    let ob = b - 1;
                    assert(perm[b] == old_perm[ob]);
                } else {
                    assert(perm[a] == old_perm[a]);
                }
            }
            assert forall|k: int| 0 <= k < i + 1 implies 0 <= #[trigger] perm[k] < i + 1 by {
                if k < p {
                    assert(perm[k] == old_perm[k]);
                } else if k > p {
                    assert(perm[k] == old_perm[k - 1]);
                }
            }
            assert forall|k: int| 0 <= k < i + 1 implies (#[trigger] sorted@[k]).0@ == sort_key(z[perm[k]].0@) && sorted@[k].1 == z[perm[k]].1 by {
                if k < p {
                    assert(perm[k] == old_perm[k]);
                    assert(sorted@[k] == old_sorted[k]);
                } else if k > p {
                    assert(perm[k] == old_perm[k - 1]);
                    assert(sorted@[k] == old_sorted[k - 1]);
                }
            }
            assert(rest@ =~= z.subrange(i as int + 1, n as int));
        }
        i = i + 1;
    }
    let mut r: Vec<Z> = Vec::new();
    let mut sorted = sorted;
    let ghost all = sorted@;
    let mut k: usize = 0;
    while sorted.len() > 0
        invariant
            k + sorted@.len() == n,
            sorted@ == all.subrange(k as int, n as int),
            all.len() == n,
            r@.len() == k,
            forall|m: int| 0 <= m < k ==> r@[m] == (#[trigger] all[m]).1,
        decreases sorted@.len(),
    {
        let (_, zug) = sorted.remove(0);
        r.push(zug);
        k = k + 1;
    }
    proof {
        assert forall|a: int, b: int| 0 <= a < b < n
            implies !numbers_before(#[trigger] sort_key(z[perm[b]].0@), #[trigger] sort_key(z[perm[a]].0@)) by {
            assert(!numbers_before(all[b].0@, all[a].0@));
        }
        assert forall|a: int, b: int| 0 <= a < b < n && sort_key(z[perm[a]].0@) == sort_key(z[perm[b]].0@)
            implies #[trigger] perm[a] < #[trigger] perm[b] by {
            assert(all[a].0@ == sort_key(z[perm[a]].0@));
            assert(all[b].0@ == sort_key(z[perm[b]].0@));
        }
        assert(is_sorted_order(z, perm));
        assert forall|m: int| 0 <= m < r@.len() implies r@[m] == #[trigger] z[perm[m]].1 by {
            assert(r@[m] == all[m].1);
        }
    }
    r
}

} // verus!
