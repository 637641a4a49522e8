//! Character-level helpers: decimal numbers and splitting at a separator.
use vstd::prelude::*;

verus! {

/// `c` is one of the ASCII digits `0` to `9`.
pub open spec fn is_ascii_digit(c: char) -> bool {
    '0' <= c && c <= '9'
}

/// The number that the ASCII digit `c` stands for.
pub open spec fn digit_value(c: char) -> int {
    (c as int) - ('0' as int)
}

/// The ASCII digit that stands for `d` (for `0 <= d < 10`).
pub open spec fn digit_char(d: int) -> char {
    ((d + ('0' as int)) as u32) as char
}

/// The decimal digits of `n`, without leading zeros (`0` is written `0`).
pub open spec fn nat_decimal(n: nat) -> Seq<char>
    decreases n,
{
    if n < 10 {
        seq![digit_char(n as int)]
    } else {
        nat_decimal(n / 10).push(digit_char((n % 10) as int))
    }
}

/// The decimal form of `n`: a minus sign before the digits of a negative number.
pub open spec fn int_decimal(n: int) -> Seq<char> {
    if n < 0 {
        seq!['-'] + nat_decimal((-n) as nat)
    } else {
        nat_decimal(n as nat)
    }
}

/// Appends `c` to `s` by `String::push` of the standard library; the contract claims
/// that the text afterwards is the text before with `c` at its end, as its
/// documentation says.
#[verifier::external_body]
pub(crate) fn string_push(s: &mut String, c: char)
    ensures
        final(s)@ == old(s)@.push(c),
{
    s.push(c);
}

/// The characters of `s`, one by one.
pub fn chars_of(s: &str) -> (r: Vec<char>)
    ensures
        r@ == s@,
{
    let n = s.unicode_len();
    let mut r: Vec<char> = Vec::new();
    let mut i: usize = 0;
    while i < n
        invariant
            n == s@.len(),
            i <= n,
            r@ == s@.subrange(0, i as int),
        decreases n - i,
    {
        let c = s.get_char(i);
        r.push(c);
        i = i + 1;
    }
    r
}

/// Appends the ASCII digit that stands for `d`.
fn push_digit(s: &mut String, d: u64)
    requires
        d < 10,
    ensures
        final(s)@ == old(s)@.push(digit_char(d as int)),
{
    let b: u8 = 48u8 + (d as u8);
    string_push(s, b as char);
}

/// Appends the decimal digits of `n`.
pub fn push_nat_decimal(s: &mut String, n: u64)
    ensures
        final(s)@ == old(s)@ + nat_decimal(n as nat),
    decreases n,
{
    if n >= 10 {
        push_nat_decimal(s, n / 10);
        push_digit(s, n % 10);
        assert(old(s)@ + nat_decimal(n as nat) =~= old(s)@ + nat_decimal((n / 10) as nat) + seq![digit_char((n % 10) as int)]);
    } else {
        push_digit(s, n);
        assert(old(s)@ + nat_decimal(n as nat) =~= old(s)@.push(digit_char(n as int)));
    }
}

/// Appends the decimal form of `n`, with a minus sign when it is negative.
pub fn push_int_decimal(s: &mut String, n: i64)
    ensures
        final(s)@ == old(s)@ + int_decimal(n as int),
{
    if n < 0 {
        string_push(s, '-');
        let m: u64 = if n == i64::MIN { 9223372036854775808u64 } else { (-n) as u64 };
        push_nat_decimal(s, m);
        assert(old(s)@ + int_decimal(n as int) =~= old(s)@.push('-') + nat_decimal(m as nat));
    } else {
        push_nat_decimal(s, n as u64);
    }
}

/// The parts of `s` between the occurrences of `sep`: one more part than there are
/// separators, empty parts included.
pub open spec fn split_at_char(s: Seq<char>, sep: char) -> Seq<Seq<char>>
    decreases s.len(),
{
    if s.len() == 0 {
        seq![Seq::<char>::empty()]
    } else {
        let init = split_at_char(s.drop_last(), sep);
        if s.last() == sep {
            init.push(Seq::<char>::empty())
        } else {
            init.update(init.len() - 1, init.last().push(s.last()))
        }
    }
}

pub proof fn lemma_split_nonempty(s: Seq<char>, sep: char)
    ensures
        split_at_char(s, sep).len() >= 1,
    decreases s.len(),
{
    if s.len() > 0 {
        lemma_split_nonempty(s.drop_last(), sep);
    }
}

/// Splits `s` at every occurrence of `sep`.
pub fn split_chars(s: &Vec<char>, sep: char) -> (r: Vec<Vec<char>>)
    ensures
        r@.len() == split_at_char(s@, sep).len(),
        forall|i: int| 0 <= i < r@.len() ==> #[trigger] r@[i]@ == split_at_char(s@, sep)[i],
{
    let mut parts: Vec<Vec<char>> = Vec::new();
    let mut current: Vec<char> = Vec::new();
    let mut i: usize = 0;
    while i < s.len()
        invariant
            i <= s.len(),
            split_at_char(s@.subrange(0, i as int), sep).len() == parts@.len() + 1,
            forall|k: int| 0 <= k < parts@.len() ==> #[trigger] parts@[k]@ == split_at_char(s@.subrange(0, i as int), sep)[k],
            current@ == split_at_char(s@.subrange(0, i as int), sep).last(),
        decreases s.len() - i,
    {
        let c = s[i];
        proof {
            let t = s@.subrange(0, i as int + 1);
            assert(t.drop_last() =~= s@.subrange(0, i as int));
            assert(t.last() == c);
            lemma_split_nonempty(s@.subrange(0, i as int), sep);
        }
        if c == sep {
            let finished = current;
            parts.push(finished);
            current = Vec::new();
        } else {
            current.push(c);
        }
        i = i + 1;
    }
    assert(s@.subrange(0, s.len() as int) =~= s@);
    parts.push(current);
    parts
}


/// Why a text is not the decimal form of an integer of the target type.
#[derive(Debug, Clone, Copy, PartialEq, Eq)]
pub enum IntErrorKind {
    /// The text is empty.
    Empty,
    /// The text holds a character that is no digit (a lone sign counts as one).
    InvalidDigit,
    /// The number is larger than the target type holds.
    PosOverflow,
    /// The number is smaller than the target type holds.
    NegOverflow,
}

/// The error of parsing an integer from text.
#[derive(Debug, Clone, PartialEq, Eq)]
pub struct ParseIntError {
    pub kind: IntErrorKind,
}

impl IntErrorKind {
    /// The message that describes this kind of error.
    pub fn description(&self) -> (r: &'static str)
        ensures
            r@ == int_error_message(*self),
    {
        match self {
            IntErrorKind::Empty => "cannot parse integer from empty string",
            IntErrorKind::InvalidDigit => "invalid digit found in string",
            IntErrorKind::PosOverflow => "number too large to fit in target type",
            IntErrorKind::NegOverflow => "number too small to fit in target type",
        }
    }
}

/// The message of each kind of error.
pub open spec fn int_error_message(kind: IntErrorKind) -> Seq<char> {
    match kind {
        IntErrorKind::Empty => "cannot parse integer from empty string"@,
        IntErrorKind::InvalidDigit => "invalid digit found in string"@,
        IntErrorKind::PosOverflow => "number too large to fit in target type"@,
        IntErrorKind::NegOverflow => "number too small to fit in target type"@,
    }
}

impl ParseIntError {
    /// The message that describes this error.
    pub fn message(&self) -> (r: &'static str)
        ensures
            r@ == int_error_message(self.kind),
    {
        self.kind.description()
    }
}

/// Reads the digits of `s` from left to right, after the number `acc` read so far,
/// stopping at the first character that is no digit or at the first value out of
/// `min..=max`.
pub open spec fn parse_digits_from(s: Seq<char>, acc: int, negative: bool, min: int, max: int) -> Result<int, IntErrorKind>
    decreases s.len(),
{
    if s.len() == 0 {
        Ok(acc)
    } else if !is_ascii_digit(s[0]) {
        Err(IntErrorKind::InvalidDigit)
    } else {
        let v = if negative { acc * 10 - digit_value(s[0]) } else { acc * 10 + digit_value(s[0]) };
        if v > max {
            Err(IntErrorKind::PosOverflow)
        } else if v < min {
            Err(IntErrorKind::NegOverflow)
        } else {
            parse_digits_from(s.drop_first(), v, negative, min, max)
        }
    }
}

/// The integer in `min..=max` that `s` writes in decimal: an optional sign (`-` only
/// where `signed`), then digits.
pub open spec fn parse_integer(s: Seq<char>, signed: bool, min: int, max: int) -> Result<int, IntErrorKind> {
    if s.len() == 0 {
        Err(IntErrorKind::Empty)
    } else if s.len() == 1 && (s[0] == '+' || s[0] == '-') {
        Err(IntErrorKind::InvalidDigit)
    } else if s[0] == '+' {
        parse_digits_from(s.drop_first(), 0, false, min, max)
    } else if s[0] == '-' && signed {
        parse_digits_from(s.drop_first(), 0, true, min, max)
    } else {
        parse_digits_from(s, 0, false, min, max)
    }
}

/// The `u32` that `s` writes in decimal.
pub open spec fn parse_u32_spec(s: Seq<char>) -> Result<int, IntErrorKind> {
    parse_integer(s, false, 0, u32::MAX as int)
}

/// The `i64` that `s` writes in decimal.
pub open spec fn parse_i64_spec(s: Seq<char>) -> Result<int, IntErrorKind> {
    parse_integer(s, true, i64::MIN as int, i64::MAX as int)
}

proof fn lemma_parse_digits_in_range(s: Seq<char>, acc: int, negative: bool, min: int, max: int)
    requires
        min <= acc <= max,
    ensures
        parse_digits_from(s, acc, negative, min, max) matches Ok(v) ==> min <= v <= max,
    decreases s.len(),
{
    if s.len() > 0 && is_ascii_digit(s[0]) {
        let v = if negative { acc * 10 - digit_value(s[0]) } else { acc * 10 + digit_value(s[0]) };
        if min <= v <= max {
            lemma_parse_digits_in_range(s.drop_first(), v, negative, min, max);
        }
    }
}

/// Reads the digits of `s[start..]` after `acc`, as `parse_digits_from` does.
fn parse_digits(s: &Vec<char>, start: usize, negative: bool, min: i128, max: i128) -> (r: Result<i128, IntErrorKind>)
    requires
        start <= s@.len(),
        i64::MIN <= min <= 0 <= max <= i64::MAX,
    ensures
        r matches Ok(v) ==> parse_digits_from(s@.subrange(start as int, s@.len() as int), 0, negative, min as int, max as int) == Ok::<int, IntErrorKind>(v as int),
        r matches Err(e) ==> parse_digits_from(s@.subrange(start as int, s@.len() as int), 0, negative, min as int, max as int) == Err::<int, IntErrorKind>(e),
{
    let mut acc: i128 = 0;
    let mut i: usize = start;
    while i < s.len()
        invariant
            start <= i <= s@.len(),
            i64::MIN <= min <= 0 <= max <= i64::MAX,
            min <= acc <= max,
            parse_digits_from(s@.subrange(start as int, s@.len() as int), 0, negative, min as int, max as int)
                == parse_digits_from(s@.subrange(i as int, s@.len() as int), acc as int, negative, min as int, max as int),
        decreases s@.len() - i,
    {
        let c = s[i];
        proof {
            assert(s@.subrange(i as int, s@.len() as int)[0] == c);
            assert(s@.subrange(i as int, s@.len() as int).drop_first() =~= s@.subrange(i as int + 1, s@.len() as int));
        }
        if !('0' <= c && c <= '9') {
            return Err(IntErrorKind::InvalidDigit);
        }
        let d: i128 = (c as u32 - '0' as u32) as i128;
        assert(d == digit_value(c));
        let v: i128 = if negative { acc * 10 - d } else { acc * 10 + d };
        if v > max {
            return Err(IntErrorKind::PosOverflow);
        }
        if v < min {
            return Err(IntErrorKind::NegOverflow);
        }
        acc = v;
        i = i + 1;
    }
    assert(s@.subrange(i as int, s@.len() as int).len() == 0);
    Ok(acc)
}

/// Reads an integer in `min..=max` from `s`, as `parse_integer` does.
fn parse_integer_exec(s: &Vec<char>, signed: bool, min: i128, max: i128) -> (r: Result<i128, IntErrorKind>)
    requires
        i64::MIN <= min <= 0 <= max <= i64::MAX,
    ensures
        r matches Ok(v) ==> parse_integer(s@, signed, min as int, max as int) == Ok::<int, IntErrorKind>(v as int) && min <= v <= max,
        r matches Err(e) ==> parse_integer(s@, signed, min as int, max as int) == Err::<int, IntErrorKind>(e),
{
    if s.len() == 0 {
        return Err(IntErrorKind::Empty);
    }
    let first = s[0];
    if s.len() == 1 && (first == '+' || first == '-') {
        return Err(IntErrorKind::InvalidDigit);
    }
    assert(s@.subrange(0, s@.len() as int) =~= s@);
    assert(s@.subrange(1, s@.len() as int) =~= s@.drop_first());
    let r = if first == '+' {
        parse_digits(s, 1, false, min, max)
    } else if first == '-' && signed {
        parse_digits(s, 1, true, min, max)
    } else {
        parse_digits(s, 0, false, min, max)
    };
    proof {
        lemma_parse_digits_in_range(s@.drop_first(), 0, false, min as int, max as int);
        lemma_parse_digits_in_range(s@.drop_first(), 0, true, min as int, max as int);
        lemma_parse_digits_in_range(s@, 0, false, min as int, max as int);
    }
    r
}

/// Parses a `u32` from its decimal form.
pub fn parse_u32(s: &Vec<char>) -> (r: Result<u32, ParseIntError>)
    ensures
        r matches Ok(v) ==> parse_u32_spec(s@) == Ok::<int, IntErrorKind>(v as int),
        r matches Err(e) ==> parse_u32_spec(s@) == Err::<int, IntErrorKind>(e.kind),
{
    match parse_integer_exec(s, false, 0, 4294967295) {
        Ok(v) => Ok(v as u32),
        Err(kind) => Err(ParseIntError { kind }),
    }
}

/// Parses an `i64` from its decimal form.
pub fn parse_i64(s: &Vec<char>) -> (r: Result<i64, ParseIntError>)
    ensures
        r matches Ok(v) ==> parse_i64_spec(s@) == Ok::<int, IntErrorKind>(v as int),
        r matches Err(e) ==> parse_i64_spec(s@) == Err::<int, IntErrorKind>(e.kind),
{
    match parse_integer_exec(s, true, -9223372036854775808, 9223372036854775807) {
        Ok(v) => Ok(v as i64),
        Err(kind) => Err(ParseIntError { kind }),
    }
}

} // verus!

verus! {

/// Compares two texts by `==` on `str` of the standard library; the contract claims that
/// the result says whether both hold the same characters in the same order, as its
/// documentation says.
#[verifier::external_body]
pub(crate) fn str_eq(a: &str, b: &str) -> (r: bool)
    ensures
        r == (a@ == b@),
{
    a == b
}

/// The texts of a sequence of string slices.
pub open spec fn str_views(v: Seq<&str>) -> Seq<Seq<char>> {
    v.map_values(|s: &str| s@)
}

} // verus!

verus! {

proof fn lemma_digit_char(d: int)
    requires
        0 <= d < 10,
    ensures
        is_ascii_digit(digit_char(d)),
        digit_value(digit_char(d)) == d,
        digit_char(d) != '-',
        digit_char(d) != '+',
{
}

/// Reading a character more continues from what the characters before gave.
proof fn lemma_parse_digits_push(s: Seq<char>, c: char, acc: int, negative: bool, min: int, max: int)
    ensures
        parse_digits_from(s.push(c), acc, negative, min, max) == match parse_digits_from(s, acc, negative, min, max) {
            Ok(v) => parse_digits_from(seq![c], v, negative, min, max),
            Err(e) => Err(e),
        },
    decreases s.len(),
{
    if s.len() == 0 {
        assert(s.push(c) =~= seq![c]);
    } else {
        assert(s.push(c)[0] == s[0]);
        assert(s.push(c).drop_first() =~= s.drop_first().push(c));
        if is_ascii_digit(s[0]) {
            let v = if negative { acc * 10 - digit_value(s[0]) } else { acc * 10 + digit_value(s[0]) };
            lemma_parse_digits_push(s.drop_first(), c, v, negative, min, max);
        }
    }
}

/// The decimal digits of `n` are digits.
pub proof fn lemma_nat_decimal_digits(n: nat)
    ensures
        nat_decimal(n).len() >= 1,
        forall|k: int| 0 <= k < nat_decimal(n).len() ==> is_ascii_digit(#[trigger] nat_decimal(n)[k]),
    decreases n,
{
    if n < 10 {
        lemma_digit_char(n as int);
    } else {
        lemma_nat_decimal_digits(n / 10);
        lemma_digit_char((n % 10) as int);
        assert forall|k: int| 0 <= k < nat_decimal(n).len() implies is_ascii_digit(#[trigger] nat_decimal(n)[k]) by {
            if k < nat_decimal(n / 10).len() {
                assert(nat_decimal(n)[k] == nat_decimal(n / 10)[k]);
            }
        }
    }
}

/// Reading one digit after `acc`.
proof fn lemma_parse_one_digit(d: int, acc: int, negative: bool, min: int, max: int)
    requires
        0 <= d < 10,
        min <= (if negative { acc * 10 - d } else { acc * 10 + d }) <= max,
    ensures
        parse_digits_from(seq![digit_char(d)], acc, negative, min, max) == Ok::<int, IntErrorKind>(if negative { acc * 10 - d } else { acc * 10 + d }),
{
    lemma_digit_char(d);
    let s = seq![digit_char(d)];
    let v = if negative { acc * 10 - d } else { acc * 10 + d };
    assert(s.drop_first() =~= Seq::<char>::empty());
    assert(parse_digits_from(s.drop_first(), v, negative, min, max) == Ok::<int, IntErrorKind>(v));
}

/// Reading the decimal digits of `n` gives `n` (or `-n` when reading a negative
/// number), where that lies in `min..=max`.
proof fn lemma_parse_nat_decimal(n: nat, negative: bool, min: int, max: int)
    requires
        min <= 0 <= max,
        negative ==> min <= -n,
        !negative ==> n <= max,
    ensures
        parse_digits_from(nat_decimal(n), 0, negative, min, max) == Ok::<int, IntErrorKind>(if negative { -n } else { n as int }),
    decreases n,
{
    if n < 10 {
        assert(nat_decimal(n) == seq![digit_char(n as int)]);
        lemma_parse_one_digit(n as int, 0, negative, min, max);
    } else {
        let q = n / 10;
        let d = (n % 10) as int;
        assert(nat_decimal(n) == nat_decimal(q).push(digit_char(d)));
        lemma_parse_nat_decimal(q, negative, min, max);
        lemma_parse_digits_push(nat_decimal(q), digit_char(d), 0, negative, min, max);
        let v: int = if negative { -q } else { q as int };
        assert(q * 10 + d == n);
        lemma_parse_one_digit(d, v, negative, min, max);
    }
}

/// Reading the decimal form of a `u32` gives it back.
pub proof fn lemma_parse_u32_nat_decimal(n: nat)
    requires
        n <= u32::MAX,
    ensures
        parse_u32_spec(nat_decimal(n)) == Ok::<int, IntErrorKind>(n as int),
{
    lemma_nat_decimal_digits(n);
    assert(is_ascii_digit(nat_decimal(n)[0]));
    lemma_parse_nat_decimal(n, false, 0, u32::MAX as int);
}

/// Reading the decimal form of an integer in the `i64` range gives it back.
pub proof fn lemma_parse_i64_int_decimal(n: int)
    requires
        i64::MIN <= n <= i64::MAX,
    ensures
        parse_i64_spec(int_decimal(n)) == Ok::<int, IntErrorKind>(n),
{
    if n < 0 {
        let m = (-n) as nat;
        lemma_nat_decimal_digits(m);
        lemma_parse_nat_decimal(m, true, i64::MIN as int, i64::MAX as int);
        assert((seq!['-'] + nat_decimal(m)).drop_first() =~= nat_decimal(m));
    } else {
        lemma_nat_decimal_digits(n as nat);
        assert(is_ascii_digit(nat_decimal(n as nat)[0]));
        lemma_parse_nat_decimal(n as nat, false, i64::MIN as int, i64::MAX as int);
    }
}

/// Reading a single decimal digit after a leading `0` gives the digit.
pub proof fn lemma_parse_i64_padded_digit(n: int)
    requires
        0 <= n <= 9,
    ensures
        parse_i64_spec(seq!['0'] + int_decimal(n)) == Ok::<int, IntErrorKind>(n),
{
    lemma_digit_char(0);
    lemma_digit_char(n);
    let s = seq!['0'] + int_decimal(n);
    assert(int_decimal(n) == nat_decimal(n as nat));
    assert(nat_decimal(n as nat) == seq![digit_char(n)]);
    assert(digit_char(0) == '0');
    assert(s =~= seq![digit_char(0)].push(digit_char(n)));
    lemma_parse_digits_push(seq![digit_char(0)], digit_char(n), 0, false, i64::MIN as int, i64::MAX as int);
    lemma_parse_one_digit(0, 0, false, i64::MIN as int, i64::MAX as int);
    lemma_parse_one_digit(n, 0, false, i64::MIN as int, i64::MAX as int);
    assert(s[0] == '0');
}

/// Splitting text without the separator gives the text alone.
pub proof fn lemma_split_without_separator(s: Seq<char>, sep: char)
    requires
        !s.contains(sep),
    ensures
        split_at_char(s, sep) == seq![s],
    decreases s.len(),
{
    if s.len() == 0 {
        assert(s =~= Seq::<char>::empty());
    } else {
        let init = s.drop_last();
        assert(!init.contains(sep)) by {
            if init.contains(sep) {
                let k = choose|k: int| 0 <= k < init.len() && init[k] == sep;
                assert(s[k] == sep);
            }
        }
        lemma_split_without_separator(init, sep);
        assert(s.last() != sep) by {
            assert(s[s.len() - 1] == s.last());
        }
        assert(split_at_char(s, sep) == split_at_char(init, sep).update(0, init.push(s.last())));
        assert(init.push(s.last()) =~= s);
        assert(seq![init].update(0, s) =~= seq![s]);
    }
}

/// Splitting `a`, the separator, then `b` without the separator, gives the parts of
/// `a` and then `b`.
pub proof fn lemma_split_after_separator(a: Seq<char>, b: Seq<char>, sep: char)
    requires
        !b.contains(sep),
    ensures
        split_at_char(a.push(sep) + b, sep) == split_at_char(a, sep).push(b),
    decreases b.len(),
{
    let s = a.push(sep) + b;
    if b.len() == 0 {
        assert(s =~= a.push(sep));
        assert(s.drop_last() =~= a);
        assert(s.last() == sep);
        assert(b =~= Seq::<char>::empty());
    } else {
        let bi = b.drop_last();
        assert(!bi.contains(sep)) by {
            if bi.contains(sep) {
                let k = choose|k: int| 0 <= k < bi.len() && bi[k] == sep;
                assert(b[k] == sep);
            }
        }
        lemma_split_after_separator(a, bi, sep);
        assert(s.drop_last() =~= a.push(sep) + bi);
        assert(s.last() == b.last());
        assert(b.last() != sep) by {
            assert(b[b.len() - 1] == b.last());
        }
        lemma_split_nonempty(a, sep);
        let init = split_at_char(a, sep).push(bi);
        assert(split_at_char(s, sep) == init.update(init.len() - 1, init.last().push(s.last())));
        assert(bi.push(b.last()) =~= b);
        assert(init.update(init.len() - 1, b) =~= split_at_char(a, sep).push(b));
    }
}

} // verus!
