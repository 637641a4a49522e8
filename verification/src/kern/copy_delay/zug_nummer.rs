//! Train numbers made of several numbers joined by `_`, such as `03_70_22`.
use crate::text::{
    chars_of, int_decimal, is_ascii_digit, lemma_nat_decimal_digits, lemma_parse_u32_nat_decimal,
    lemma_split_after_separator, lemma_split_without_separator, nat_decimal, parse_u32, parse_u32_spec,
    push_nat_decimal, split_at_char, split_chars, string_push, IntErrorKind, ParseIntError,
};
use std::num::TryFromIntError;
use vstd::prelude::*;

verus! {

/// A train number: one or more numbers, written joined by `_`.
#[derive(Debug, Clone, PartialEq, Eq, PartialOrd, Ord, Default)]
pub struct ZugNummer(pub Vec<u32>);

/// The separator between the numbers of a train number.
pub open spec fn separator() -> char {
    '_'
}

/// The numbers that `parts` write in decimal, or the error of the first part that is
/// no `u32`.
pub open spec fn parse_parts(parts: Seq<Seq<char>>) -> Result<Seq<u32>, IntErrorKind>
    decreases parts.len(),
{
    if parts.len() == 0 {
        Ok(Seq::empty())
    } else {
        match parse_parts(parts.drop_last()) {
            Err(e) => Err(e),
            Ok(values) => match parse_u32_spec(parts.last()) {
                Err(e) => Err(e),
                Ok(v) => Ok(values.push(v as u32)),
            },
        }
    }
}

/// What `ZugNummer::from_str` reads from the text `s`.
pub open spec fn parse_zug_nummer(s: Seq<char>) -> Result<Seq<u32>, IntErrorKind> {
    parse_parts(split_at_char(s, separator()))
}

/// The text of a train number: the decimal numbers joined by `_`.
pub open spec fn join_decimal(v: Seq<u32>) -> Seq<char>
    decreases v.len(),
{
    if v.len() == 0 {
        Seq::empty()
    } else if v.len() == 1 {
        nat_decimal(v[0] as nat)
    } else {
        join_decimal(v.drop_last()).push(separator()) + nat_decimal(v.last() as nat)
    }
}

/// The value that the `u32` `n` has when it is read as an `i32` (two's complement).
pub open spec fn wrapped_i32(n: u32) -> int {
    if n <= i32::MAX {
        n as int
    } else {
        n - 0x1_0000_0000
    }
}

/// The number that increment by `increment` gives for `n`, before the check
/// that it is not negative.
pub open spec fn incremented(n: u32, increment: i32) -> int {
    wrapped_i32(n) + increment
}

/// Incrementing the numbers in order never leaves the `i32` range before the first of
/// them becomes negative.
pub open spec fn increment_stays_in_i32(v: Seq<u32>, increment: i32) -> bool {
    forall|k: int|
        0 <= k < v.len() && (forall|m: int| 0 <= m < k ==> incremented(#[trigger] v[m], increment) >= 0)
            ==> i32::MIN <= #[trigger] incremented(v[k], increment) <= i32::MAX
}

/// Every number stays non-negative after the increment.
pub open spec fn increment_succeeds(v: Seq<u32>, increment: i32) -> bool {
    forall|k: int| 0 <= k < v.len() ==> incremented(#[trigger] v[k], increment) >= 0
}

/// `w` holds the numbers of `v`, each incremented.
pub open spec fn all_incremented(v: Seq<u32>, w: Seq<u32>, increment: i32) -> bool {
    &&& w.len() == v.len()
    &&& forall|k: int| 0 <= k < v.len() ==> #[trigger] w[k] == incremented(v[k], increment)
}

impl ZugNummer {
    /// A train number of the given numbers.
    pub fn new(value: Vec<u32>) -> (r: Self)
        requires
            value@.len() > 0,
        ensures
            r.0@ == value@,
    {
        ZugNummer(value)
    }

    /// Adds `increment` to each number, in order. Fails at the first number that would
    /// become negative; the numbers before it are then already incremented, it and the
    /// ones after it are kept.
    pub fn increment(&mut self, increment: i32) -> (r: Result<(), TryFromIntError>)
        requires
            increment_stays_in_i32(old(self).0@, increment),
        ensures
            final(self).0@.len() == old(self).0@.len(),
            r is Ok <==> increment_succeeds(old(self).0@, increment),
            r is Ok ==> all_incremented(old(self).0@, final(self).0@, increment),
            r is Err ==> exists|f: int|
                0 <= f < old(self).0@.len() && incremented(#[trigger] old(self).0@[f], increment) < 0
                    && (forall|k: int| 0 <= k < f ==> incremented(#[trigger] old(self).0@[k], increment) >= 0 && final(self).0@[k] == incremented(old(self).0@[k], increment))
                    && (forall|k: int| f <= k < old(self).0@.len() ==> #[trigger] final(self).0@[k] == old(self).0@[k]),
    {
        let ghost v = self.0@;
        let mut i: usize = 0;
        while i < self.0.len()
            invariant
                v == old(self).0@,
                increment_stays_in_i32(v, increment),
                self.0@.len() == v.len(),
                i <= v.len(),
                forall|k: int| 0 <= k < i ==> incremented(#[trigger] v[k], increment) >= 0 && self.0@[k] == incremented(v[k], increment),
                forall|k: int| i <= k < v.len() ==> #[trigger] self.0@[k] == v[k],
            decreases v.len() - i,
        {
            let n = self.0[i];
            assert(forall|m: int| 0 <= m < i ==> incremented(#[trigger] v[m], increment) >= 0);
            assert(i32::MIN <= incremented(v[i as int], increment) <= i32::MAX);
            let w: i64 = if n <= 2147483647 { n as i64 } else { n as i64 - 4294967296 };
            let new: i64 = w + increment as i64;
            match u32::try_from(new as i32) {
                Ok(value) => {
                    self.0.set(i, value);
                }
                Err(error) => {
                    assert(incremented(v[i as int], increment) < 0);
                    return Err(error);
                }
            }
            i = i + 1;
        }
        Ok(())
    }

    /// Reads a train number from text: the parts between `_` must each be the decimal
    /// form of a `u32`. The error is that of the first part that is not.
    pub fn from_str(value: &str) -> (r: Result<Self, ParseIntError>)
        ensures
            r matches Ok(z) ==> parse_zug_nummer(value@) == Ok::<Seq<u32>, IntErrorKind>(z.0@) && z.0@.len() > 0,
            r matches Err(e) ==> parse_zug_nummer(value@) == Err::<Seq<u32>, IntErrorKind>(e.kind),
    {
        let chars = chars_of(value);
        let parts = split_chars(&chars, '_');
        let ghost spec_parts = split_at_char(value@, '_');
        proof { crate::text::lemma_split_nonempty(value@, '_'); }
        let mut numbers: Vec<u32> = Vec::new();
        let mut i: usize = 0;
        while i < parts.len()
            invariant
                spec_parts == split_at_char(value@, '_'),
                parts@.len() == spec_parts.len(),
                forall|k: int| 0 <= k < parts@.len() ==> #[trigger] parts@[k]@ == spec_parts[k],
                i <= parts@.len(),
                parse_parts(spec_parts.subrange(0, i as int)) == Ok::<Seq<u32>, IntErrorKind>(numbers@),
            decreases parts@.len() - i,
        {
            proof {
                assert(spec_parts.subrange(0, i as int + 1).drop_last() =~= spec_parts.subrange(0, i as int));
            }
            match parse_u32(&parts[i]) {
                Ok(n) => {
                    numbers.push(n);
                }
                Err(e) => {
                    proof { lemma_parse_parts_prefix_error(spec_parts, i as int + 1); }
                    return Err(e);
                }
            }
            i = i + 1;
        }
        assert(spec_parts.subrange(0, i as int) =~= spec_parts);
        proof { lemma_parse_parts_len(spec_parts); }
        Ok(ZugNummer(numbers))
    }

    /// The numbers in decimal, joined by `_`.
    pub fn to_string(&self) -> (r: String)
        ensures
            r@ == join_decimal(self.0@),
    {
        let mut s = String::new();
        let mut i: usize = 0;
        while i < self.0.len()
            invariant
                i <= self.0@.len(),
                s@ == join_decimal(self.0@.subrange(0, i as int)),
            decreases self.0@.len() - i,
        {
            let ghost before = s@;
            if i > 0 {
                string_push(&mut s, '_');
            }
            push_nat_decimal(&mut s, self.0[i] as u64);
            proof {
                let t = self.0@.subrange(0, i as int + 1);
                assert(t.drop_last() =~= self.0@.subrange(0, i as int));
                if i == 0 {
                    assert(before =~= Seq::<char>::empty());
                    assert(s@ =~= nat_decimal(t[0] as nat));
                }
            }
            i = i + 1;
        }
        assert(self.0@.subrange(0, i as int) =~= self.0@);
        s
    }

    /// Whether incrementing the numbers in order by `increment` stays in the `i32` range
    /// up to the first number that becomes negative, as `increment_stays_in_i32` says.
    pub fn increment_stays_in_range(&self, increment: i32) -> (r: bool)
        ensures
            r == increment_stays_in_i32(self.0@, increment),
    {
        let ghost v = self.0@;
        let mut i: usize = 0;
        while i < self.0.len()
            invariant
                v == self.0@,
                i <= v.len(),
                forall|m: int| 0 <= m < i ==> incremented(#[trigger] v[m], increment) >= 0,
                forall|k: int|
                    0 <= k < i && (forall|m: int| 0 <= m < k ==> incremented(#[trigger] v[m], increment) >= 0)
                        ==> i32::MIN <= #[trigger] incremented(v[k], increment) <= i32::MAX,
            decreases v.len() - i,
        {
            let n = self.0[i];
            let w: i64 = if n <= 2147483647 { n as i64 } else { n as i64 - 4294967296 };
            let new: i64 = w + increment as i64;
            if new < -2147483648 || new > 2147483647 {
                assert(!(i32::MIN <= incremented(v[i as int], increment) <= i32::MAX));
                return false;
            }
            if new < 0 {
                assert(incremented(v[i as int], increment) < 0);
                assert forall|k: int|
                    0 <= k < v.len() && (forall|m: int| 0 <= m < k ==> incremented(#[trigger] v[m], increment) >= 0)
                        implies i32::MIN <= #[trigger] incremented(v[k], increment) <= i32::MAX by {
                    if k > i {
                        assert(incremented(v[i as int], increment) >= 0);
                    }
                }
                return true;
            }
            i = i + 1;
        }
        true
    }

    /// A copy with each number incremented by `increment`; fails when one would become
    /// negative.
    pub fn to_new_incremented(&self, increment: i32) -> (r: Result<Self, TryFromIntError>)
        requires
            increment_stays_in_i32(self.0@, increment),
        ensures
            r is Ok <==> increment_succeeds(self.0@, increment),
            r matches Ok(z) ==> all_incremented(self.0@, z.0@, increment),
    {
        let mut new = ZugNummer(self.copy_numbers());
        new.increment(increment)?;
        Ok(new)
    }

    fn copy_numbers(&self) -> (r: Vec<u32>)
        ensures
            r@ == self.0@,
    {
        let mut r: Vec<u32> = Vec::new();
        let mut i: usize = 0;
        while i < self.0.len()
            invariant
                i <= self.0@.len(),
                r@ == self.0@.subrange(0, i as int),
            decreases self.0@.len() - i,
        {
            r.push(self.0[i]);
            i = i + 1;
        }
        r
    }
}

impl<'a> TryFrom<&'a str> for ZugNummer {
    type Error = ParseIntError;

    fn try_from(value: &'a str) -> (r: Result<Self, Self::Error>)
        ensures
            r matches Ok(z) ==> parse_zug_nummer(value@) == Ok::<Seq<u32>, IntErrorKind>(z.0@),
            r matches Err(e) ==> parse_zug_nummer(value@) == Err::<Seq<u32>, IntErrorKind>(e.kind),
    {
        ZugNummer::from_str(value)
    }
}

impl<'a> vstd::std_specs::convert::TryFromSpecImpl<&'a str> for ZugNummer {
    open spec fn obeys_try_from_spec() -> bool {
        false
    }

    open spec fn try_from_spec(v: &'a str) -> Result<Self, ParseIntError> {
        arbitrary()
    }
}

impl TryFrom<String> for ZugNummer {
    type Error = ParseIntError;

    fn try_from(value: String) -> (r: Result<Self, Self::Error>)
        ensures
            r matches Ok(z) ==> parse_zug_nummer(value@) == Ok::<Seq<u32>, IntErrorKind>(z.0@),
            r matches Err(e) ==> parse_zug_nummer(value@) == Err::<Seq<u32>, IntErrorKind>(e.kind),
    {
        ZugNummer::from_str(value.as_str())
    }
}

impl vstd::std_specs::convert::TryFromSpecImpl<String> for ZugNummer {
    open spec fn obeys_try_from_spec() -> bool {
        false
    }

    open spec fn try_from_spec(v: String) -> Result<Self, ParseIntError> {
        arbitrary()
    }
}

impl<'a> TryFrom<&'a String> for ZugNummer {
    type Error = ParseIntError;

    fn try_from(value: &'a String) -> (r: Result<Self, Self::Error>)
        ensures
            r matches Ok(z) ==> parse_zug_nummer(value@) == Ok::<Seq<u32>, IntErrorKind>(z.0@),
            r matches Err(e) ==> parse_zug_nummer(value@) == Err::<Seq<u32>, IntErrorKind>(e.kind),
    {
        ZugNummer::from_str(value.as_str())
    }
}

impl<'a> vstd::std_specs::convert::TryFromSpecImpl<&'a String> for ZugNummer {
    open spec fn obeys_try_from_spec() -> bool {
        false
    }

    open spec fn try_from_spec(v: &'a String) -> Result<Self, ParseIntError> {
        arbitrary()
    }
}

impl From<ZugNummer> for String {
    fn from(value: ZugNummer) -> (r: String)
        ensures
            r@ == join_decimal(value.0@),
    {
        value.to_string()
    }
}

impl vstd::std_specs::convert::FromSpecImpl<ZugNummer> for String {
    open spec fn obeys_from_spec() -> bool {
        false
    }

    open spec fn from_spec(v: ZugNummer) -> String {
        arbitrary()
    }
}

proof fn lemma_parse_parts_prefix_error(parts: Seq<Seq<char>>, n: int)
    requires
        0 <= n <= parts.len(),
        parse_parts(parts.subrange(0, n)) is Err,
    ensures
        parse_parts(parts) == parse_parts(parts.subrange(0, n)),
    decreases parts.len() - n,
{
    if n < parts.len() {
        assert(parts.subrange(0, n + 1).drop_last() =~= parts.subrange(0, n));
        lemma_parse_parts_prefix_error(parts, n + 1);
    } else {
        assert(parts.subrange(0, n) =~= parts);
    }
}

proof fn lemma_parse_parts_len(parts: Seq<Seq<char>>)
    ensures
        parse_parts(parts) matches Ok(v) ==> v.len() == parts.len(),
    decreases parts.len(),
{
    if parts.len() > 0 {
        lemma_parse_parts_len(parts.drop_last());
    }
}

/// The decimal forms of the numbers.
pub open spec fn decimal_parts(v: Seq<u32>) -> Seq<Seq<char>> {
    Seq::new(v.len(), |k: int| nat_decimal(v[k] as nat))
}

proof fn lemma_nat_decimal_without_separator(n: nat)
    ensures
        !nat_decimal(n).contains(separator()),
{
    lemma_nat_decimal_digits(n);
    if nat_decimal(n).contains(separator()) {
        let k = choose|k: int| 0 <= k < nat_decimal(n).len() && nat_decimal(n)[k] == separator();
        assert(is_ascii_digit(nat_decimal(n)[k]));
    }
}

proof fn lemma_split_join_decimal(v: Seq<u32>)
    requires
        v.len() > 0,
    ensures
        split_at_char(join_decimal(v), separator()) == decimal_parts(v),
    decreases v.len(),
{
    lemma_nat_decimal_without_separator(v.last() as nat);
    if v.len() == 1 {
        lemma_split_without_separator(nat_decimal(v[0] as nat), separator());
        assert(decimal_parts(v) =~= seq![nat_decimal(v[0] as nat)]);
    } else {
        lemma_split_join_decimal(v.drop_last());
        lemma_split_after_separator(join_decimal(v.drop_last()), nat_decimal(v.last() as nat), separator());
        assert(decimal_parts(v.drop_last()).push(nat_decimal(v.last() as nat)) =~= decimal_parts(v));
    }
}

proof fn lemma_parse_decimal_parts(v: Seq<u32>)
    ensures
        parse_parts(decimal_parts(v)) == Ok::<Seq<u32>, IntErrorKind>(v),
    decreases v.len(),
{
    if v.len() > 0 {
        lemma_parse_decimal_parts(v.drop_last());
        assert(decimal_parts(v).drop_last() =~= decimal_parts(v.drop_last()));
        lemma_parse_u32_nat_decimal(v.last() as nat);
        assert(v.drop_last().push(v.last()) =~= v);
    } else {
        assert(v =~= Seq::<u32>::empty());
    }
}

/// Writing a train number and reading it back gives the same numbers.
pub proof fn lemma_zug_nummer_round_trip(v: Seq<u32>)
    requires
        v.len() > 0,
    ensures
        parse_zug_nummer(join_decimal(v)) == Ok::<Seq<u32>, IntErrorKind>(v),
{
    lemma_split_join_decimal(v);
    lemma_parse_decimal_parts(v);
}

/// Raising the numbers by `increment` and then lowering them by it again gives the
/// numbers back, where the numbers lie in the `i32` range and the raise succeeds.
pub proof fn lemma_increment_undone(v: Seq<u32>, w: Seq<u32>, u: Seq<u32>, increment: i32)
    requires
        forall|k: int| 0 <= k < v.len() ==> #[trigger] v[k] <= i32::MAX,
        increment != i32::MIN,
        increment_stays_in_i32(v, increment),
        increment_succeeds(v, increment),
        all_incremented(v, w, increment),
        all_incremented(w, u, -increment as i32),
    ensures
        u == v,
{
    assert forall|k: int| 0 <= k < v.len() implies #[trigger] u[k] == v[k] by {
        assert forall|m: int| 0 <= m < k implies incremented(#[trigger] v[m], increment) >= 0 by {}
        assert(i32::MIN <= incremented(v[k], increment) <= i32::MAX);
        assert(incremented(v[k], increment) >= 0);
        assert(w[k] == incremented(v[k], increment));
        assert(u[k] == incremented(w[k], -increment as i32));
    }
    assert(u =~= v);
}

/// The increment that undoes a raise succeeds and stays in the `i32` range.
pub proof fn lemma_increment_undo_defined(v: Seq<u32>, w: Seq<u32>, increment: i32)
    requires
        forall|k: int| 0 <= k < v.len() ==> #[trigger] v[k] <= i32::MAX,
        increment != i32::MIN,
        increment_stays_in_i32(v, increment),
        increment_succeeds(v, increment),
        all_incremented(v, w, increment),
    ensures
        increment_stays_in_i32(w, -increment as i32),
        increment_succeeds(w, -increment as i32),
{
    assert forall|k: int| 0 <= k < w.len() implies incremented(#[trigger] w[k], -increment as i32) == v[k] as int by {
        assert forall|m: int| 0 <= m < k implies incremented(#[trigger] v[m], increment) >= 0 by {}
        assert(i32::MIN <= incremented(v[k], increment) <= i32::MAX);
        assert(incremented(v[k], increment) >= 0);
    }
}

} // verus!
