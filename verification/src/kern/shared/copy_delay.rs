//! Copies of a train, each later and with higher numbers than the one before.
use crate::kern::copy_delay::zug_nummer::{parse_zug_nummer, increment_stays_in_i32, increment_succeeds, incremented, join_decimal, ZugNummer};
use crate::kern::shared::helpers::{delay_fahrplan_eintraege, delay_fahrplan_zeilen};
use crate::text::{IntErrorKind, ParseIntError};
use crate::zusi::{
    duplicate_eintraege, duplicate_zeilen, eintraege_eq, eintraege_wf, lemma_shift_eintraege_eq, shift_eintraege,
    shift_eintraege_defined, shift_zeilen, shift_zeilen_defined, zeilen_wf, FahrplanEintrag, FahrplanZeile,
};
use vstd::prelude::*;

verus! {

/// Why a train could not be copied.
#[derive(Debug, Clone, PartialEq, Eq)]
pub enum CopyDelayError {
    /// The train number is not a list of numbers joined by `_`.
    InvalidZugNummer { error: ParseIntError },
    /// A number of a copy would become negative.
    ZugNummerCanNotBeNegative,
}

impl CopyDelayError {
    /// The message that describes the error, without the message of its cause.
    pub fn message(&self) -> (r: &'static str)
        ensures
            r@ == copy_delay_error_message(*self),
    {
        match self {
            CopyDelayError::InvalidZugNummer { .. } => "The 'Zugnummer' is invalid: ",
            CopyDelayError::ZugNummerCanNotBeNegative => "The 'Zugnummer' always must be positive. It can be decremented only if the resulting value is still positive.",
        }
    }
}

/// The message of each error, without the message of its cause.
pub open spec fn copy_delay_error_message(e: CopyDelayError) -> Seq<char> {
    match e {
        CopyDelayError::InvalidZugNummer { .. } => "The 'Zugnummer' is invalid: "@,
        CopyDelayError::ZugNummerCanNotBeNegative => "The 'Zugnummer' always must be positive. It can be decremented only if the resulting value is still positive."@,
    }
}

/// What copying reads of a train and changes in its copies: its number, its timetable
/// entries and, where it has a timetable book, the book's lines.
#[derive(Debug, Clone, PartialEq)]
pub struct CopyDelayZug {
    pub nummer: String,
    pub fahrplan_eintraege: Vec<FahrplanEintrag>,
    pub fahrplan_zeilen: Option<Vec<FahrplanZeile>>,
}

/// The train number of a train that is to be copied.
pub fn copy_delay_zug_nummer(nummer: &String) -> (r: Result<ZugNummer, CopyDelayError>)
    ensures
        r matches Ok(z) ==> parse_zug_nummer(nummer@) == Ok::<Seq<u32>, IntErrorKind>(z.0@) && z.0@.len() > 0,
        r matches Err(e) ==> parse_zug_nummer(nummer@) matches Err(kind)
            && e == (CopyDelayError::InvalidZugNummer { error: ParseIntError { kind } }),
{
    match ZugNummer::from_str(nummer.as_str()) {
        Ok(z) => Ok(z),
        Err(error) => Err(CopyDelayError::InvalidZugNummer { error }),
    }
}

/// The timetable-book lines of a train, where it has a timetable book.
pub open spec fn zeilen_of(zug: CopyDelayZug) -> Option<Seq<FahrplanZeile>> {
    match zug.fahrplan_zeilen {
        Some(z) => Some(z@),
        None => None,
    }
}

/// The numbers, each raised by `increment`.
pub open spec fn numbers_incremented(v: Seq<u32>, increment: int) -> Seq<u32> {
    Seq::new(v.len(), |k: int| incremented(v[k], increment as i32) as u32)
}

/// The numbers of the `n`-th copy are all non-negative.
pub open spec fn copy_succeeds(v: Seq<u32>, increment: i32, n: int) -> bool {
    increment_succeeds(v, (n * increment) as i32)
}

/// The copies before the `n`-th all have non-negative numbers.
pub open spec fn copies_succeed_before(v: Seq<u32>, increment: i32, n: int) -> bool {
    forall|m: int| 1 <= m < n ==> #[trigger] copy_succeeds(v, increment, m)
}

/// The `n`-th copy can be made: its increment and each number stay in the `i32` range,
/// and where its numbers are non-negative, its delay and its shifted date-times stay in
/// range.
pub open spec fn copy_defined(v: Seq<u32>, es: Seq<FahrplanEintrag>, zs: Option<Seq<FahrplanZeile>>, delay: i64, increment: i32, n: int) -> bool {
    &&& i32::MIN <= n * increment <= i32::MAX
    &&& increment_stays_in_i32(v, (n * increment) as i32)
    &&& copy_succeeds(v, increment, n) ==> {
        &&& i64::MIN <= n * delay <= i64::MAX
        &&& shift_eintraege(es, n * delay) is Some
        &&& (zs matches Some(z) ==> shift_zeilen(z, n * delay) is Some)
    }
}

/// `c` is the `n`-th copy: its number raised by `n` times `increment`, its times moved
/// by `n` times `delay`.
pub open spec fn is_copy(c: CopyDelayZug, v: Seq<u32>, es: Seq<FahrplanEintrag>, zs: Option<Seq<FahrplanZeile>>, delay: i64, increment: i32, n: int) -> bool {
    &&& c.nummer@ == join_decimal(numbers_incremented(v, n * increment))
    &&& eintraege_eq(c.fahrplan_eintraege@, shift_eintraege(es, n * delay).unwrap())
    &&& match zs {
        None => c.fahrplan_zeilen is None,
        Some(z) => c.fahrplan_zeilen matches Some(cz) && cz@ == shift_zeilen(z, n * delay).unwrap(),
    }
}

/// Every copy up to the `count`-th whose copies before it have non-negative numbers can
/// be made (see `copy_defined`).
pub open spec fn copies_defined(v: Seq<u32>, es: Seq<FahrplanEintrag>, zs: Option<Seq<FahrplanZeile>>, delay: i64, increment: i32, count: int) -> bool {
    forall|n: int| 1 <= n <= count && copies_succeed_before(v, increment, n) ==> #[trigger] copy_defined(v, es, zs, delay, increment, n)
}

/// Whether the `n`-th copy can be made, as far as it does not depend on its numbers
/// being non-negative: its increment and each number stay in the `i32` range.
fn copy_numbers_defined(zug_nummer: &ZugNummer, increment: i32, n: u32) -> (r: bool)
    requires
        n <= i32::MAX,
    ensures
        r == (i32::MIN <= n * increment <= i32::MAX && increment_stays_in_i32(zug_nummer.0@, (n * increment) as i32)),
{
    assert(-0x4000_0000_0000_0000 <= n * increment <= 0x4000_0000_0000_0000) by (nonlinear_arith)
        requires
            0 <= n <= 0x8000_0000,
            -0x8000_0000 <= increment <= 0x8000_0000;
    let product: i64 = n as i64 * increment as i64;
    if product < -2147483648 || product > 2147483647 {
        return false;
    }
    zug_nummer.increment_stays_in_range(product as i32)
}

/// Whether the times of the `n`-th copy can be made: its delay and its shifted
/// date-times stay in range.
fn copy_times_defined(zug: &CopyDelayZug, delay: i64, n: u32) -> (r: bool)
    ensures
        r == (i64::MIN <= n * delay <= i64::MAX && shift_eintraege(zug.fahrplan_eintraege@, n * delay) is Some
            && (zeilen_of(*zug) matches Some(z) ==> shift_zeilen(z, n * delay) is Some)),
{
    assert(-0x8000_0000_0000_0000_0000_0000 <= n * delay <= 0x8000_0000_0000_0000_0000_0000) by (nonlinear_arith)
        requires
            0 <= n <= 0x1_0000_0000,
            -0x8000_0000_0000_0000 <= delay <= 0x8000_0000_0000_0000;
    let product: i128 = n as i128 * delay as i128;
    if product < -9223372036854775808 || product > 9223372036854775807 {
        return false;
    }
    let d = product as i64;
    if !shift_eintraege_defined(&zug.fahrplan_eintraege, d) {
        return false;
    }
    match &zug.fahrplan_zeilen {
        None => true,
        Some(z) => shift_zeilen_defined(z, d),
    }
}

/// The `count` copies of `zug`, whose number is `zug_nummer`: the n-th has its numbers
/// raised by `n` times `increment` and its times moved by `n` times `delay`. Fails when
/// a number of a copy would become negative. `None` where a copy cannot be made (see
/// `copies_defined`).
pub fn delayed_copies_checked(zug_nummer: &ZugNummer, delay: i64, increment: i32, count: u32, zug: &CopyDelayZug) -> (r: Option<Result<Vec<CopyDelayZug>, CopyDelayError>>)
    requires
        count <= i32::MAX,
        eintraege_wf(zug.fahrplan_eintraege@),
        zug.fahrplan_zeilen matches Some(z) ==> zeilen_wf(z@),
    ensures
        r is None <==> !copies_defined(zug_nummer.0@, zug.fahrplan_eintraege@, zeilen_of(*zug), delay, increment, count as int),
        r matches Some(rr) ==> (rr is Ok <==> copies_succeed_before(zug_nummer.0@, increment, count + 1)),
        r matches Some(rr) ==> (rr is Err ==> rr == Err::<Vec<CopyDelayZug>, CopyDelayError>(CopyDelayError::ZugNummerCanNotBeNegative)),
        r matches Some(Ok(copies)) ==> copies@.len() == count && forall|k: int| 0 <= k < count
            ==> #[trigger] is_copy(copies@[k], zug_nummer.0@, zug.fahrplan_eintraege@, zeilen_of(*zug), delay, increment, k + 1),
{
    let ghost v = zug_nummer.0@;
    let ghost es0 = zug.fahrplan_eintraege@;
    let ghost zs0 = zeilen_of(*zug);
    let mut copies: Vec<CopyDelayZug> = Vec::new();
    let mut n: u32 = 1;
    while n <= count
        invariant
            v == zug_nummer.0@,
            es0 == zug.fahrplan_eintraege@,
            zs0 == zeilen_of(*zug),
            count <= i32::MAX,
            eintraege_wf(es0),
            zug.fahrplan_zeilen matches Some(z) ==> zeilen_wf(z@),
            forall|m: int| 1 <= m < n && copies_succeed_before(v, increment, m)
                ==> #[trigger] copy_defined(v, es0, zs0, delay, increment, m),
            1 <= n <= count + 1,
            copies@.len() == n - 1,
            copies_succeed_before(v, increment, n as int),
            forall|k: int| 0 <= k < n - 1 ==> #[trigger] is_copy(copies@[k], v, es0, zs0, delay, increment, k + 1),
        decreases count + 1 - n,
    {
        if !copy_numbers_defined(zug_nummer, increment, n) {
            assert(!copy_defined(v, es0, zs0, delay, increment, n as int));
            return None;
        }
        let inc: i32 = (n as i32) * increment;
        let numbers = match zug_nummer.to_new_incremented(inc) {
            Ok(z) => z,
            Err(_) => {
                proof {
                    assert(!copy_succeeds(v, increment, n as int));
                    assert(copy_defined(v, es0, zs0, delay, increment, n as int));
                    assert forall|m: int| 1 <= m <= count && copies_succeed_before(v, increment, m)
                        implies #[trigger] copy_defined(v, es0, zs0, delay, increment, m) by {
                        if m > n {
                            assert(copy_succeeds(v, increment, n as int));
                        }
                    }
                    assert(!copies_succeed_before(v, increment, count + 1)) by {
                        assert(!copy_succeeds(v, increment, n as int));
                    }
                }
                return Some(Err(CopyDelayError::ZugNummerCanNotBeNegative));
            },
        };
        if !copy_times_defined(zug, delay, n) {
            assert(!copy_defined(v, es0, zs0, delay, increment, n as int));
            return None;
        }
        proof {
            assert(copy_succeeds(v, increment, n as int));
            assert(copy_defined(v, es0, zs0, delay, increment, n as int));
            assert(numbers.0@ =~= numbers_incremented(v, n * increment));
        }
        let nummer = numbers.to_string();
        let d: i64 = (n as i64) * delay;
        let mut eintraege = duplicate_eintraege(&zug.fahrplan_eintraege);
        proof {
            lemma_shift_eintraege_eq(eintraege@, es0, d as int);
        }
        let ghost copied = eintraege@;
        delay_fahrplan_eintraege(&mut eintraege, d);
        proof {
            lemma_shift_eintraege_eq(copied, es0, d as int);
        }
        let zeilen = match &zug.fahrplan_zeilen {
            None => None,
            Some(z) => {
                let mut copied_zeilen = duplicate_zeilen(z);
                delay_fahrplan_zeilen(&mut copied_zeilen, d);
                Some(copied_zeilen)
            },
        };
        let copy = CopyDelayZug { nummer, fahrplan_eintraege: eintraege, fahrplan_zeilen: zeilen };
        proof {
            assert(is_copy(copy, v, es0, zs0, delay, increment, n as int));
        }
        let ghost before = copies@;
        copies.push(copy);
        proof {
            assert forall|m: int| 1 <= m < n + 1 implies #[trigger] copy_succeeds(v, increment, m) by {
                if m < n {
                    assert(copies_succeed_before(v, increment, n as int));
                }
            }
            assert forall|k: int| 0 <= k < n implies #[trigger] is_copy(copies@[k], v, es0, zs0, delay, increment, k + 1) by {
                if k < n - 1 {
                    assert(copies@[k] == before[k]);
                }
            }
        }
        n = n + 1;
    }
    Some(Ok(copies))
}

/// The `count` copies of `zug`, as `delayed_copies_checked` makes them, where every copy
/// can be made.
pub fn delayed_copies(zug_nummer: &ZugNummer, delay: i64, increment: i32, count: u32, zug: &CopyDelayZug) -> (r: Result<Vec<CopyDelayZug>, CopyDelayError>)
    requires
        count <= i32::MAX,
        eintraege_wf(zug.fahrplan_eintraege@),
        zug.fahrplan_zeilen matches Some(z) ==> zeilen_wf(z@),
        forall|n: int| 1 <= n <= count && copies_succeed_before(zug_nummer.0@, increment, n)
            ==> #[trigger] copy_defined(zug_nummer.0@, zug.fahrplan_eintraege@, zeilen_of(*zug), delay, increment, n),
    ensures
        r is Ok <==> copies_succeed_before(zug_nummer.0@, increment, count + 1),
        r is Err ==> r == Err::<Vec<CopyDelayZug>, CopyDelayError>(CopyDelayError::ZugNummerCanNotBeNegative),
        r matches Ok(copies) ==> copies@.len() == count && forall|k: int| 0 <= k < count
            ==> #[trigger] is_copy(copies@[k], zug_nummer.0@, zug.fahrplan_eintraege@, zeilen_of(*zug), delay, increment, k + 1),
{
    match delayed_copies_checked(zug_nummer, delay, increment, count, zug) {
        Some(r) => r,
        // The requires rules this out.
        None => Err(CopyDelayError::ZugNummerCanNotBeNegative),
    }
}

} // verus!
