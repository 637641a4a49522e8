//! Durations written as `HH:MM:SS`, as the configuration files hold them.
use crate::text::{
    chars_of, int_decimal, int_error_message, is_ascii_digit, lemma_nat_decimal_digits, lemma_parse_i64_int_decimal,
    lemma_parse_i64_padded_digit, lemma_split_after_separator, lemma_split_without_separator, nat_decimal, parse_i64,
    parse_i64_spec, push_int_decimal, split_at_char, split_chars, string_push, IntErrorKind,
};
use vstd::prelude::*;

verus! {

/// Appends the characters of `t` to `s`.
pub fn append_str(s: &mut String, t: &str)
    ensures
        final(s)@ == old(s)@ + t@,
{
    let chars = chars_of(t);
    let mut i: usize = 0;
    while i < chars.len()
        invariant
            i <= chars@.len(),
            chars@ == t@,
            s@ == old(s)@ + t@.subrange(0, i as int),
        decreases chars@.len() - i,
    {
        string_push(s, chars[i]);
        i = i + 1;
    }
    assert(t@.subrange(0, chars@.len() as int) =~= t@);
}

/// Hours, minutes and seconds of a time string, or the message of why it has none: it
/// must be three `i64` separated by `:`.
pub open spec fn parsed_time(t: Seq<char>) -> Result<(int, int, int), Seq<char>> {
    let parts = split_at_char(t, ':');
    if parts.len() != 3 {
        Err("Invalid time format, expected HH:MM:SS"@)
    } else {
        match parse_i64_spec(parts[0]) {
            Err(k) => Err("Failed to parse hours: "@ + int_error_message(k)),
            Ok(h) => match parse_i64_spec(parts[1]) {
                Err(k) => Err("Failed to parse minutes: "@ + int_error_message(k)),
                Ok(m) => match parse_i64_spec(parts[2]) {
                    Err(k) => Err("Failed to parse seconds: "@ + int_error_message(k)),
                    Ok(s) => Ok((h, m, s)),
                },
            },
        }
    }
}

/// The duration of `h` hours, `m` minutes and `s` seconds can be built step by step
/// within the `i64` range of seconds.
pub open spec fn duration_fits(h: int, m: int, s: int) -> bool {
    &&& i64::MIN <= h * 3600 <= i64::MAX
    &&& i64::MIN <= m * 60 <= i64::MAX
    &&& i64::MIN <= h * 3600 + m * 60 <= i64::MAX
    &&& i64::MIN <= h * 3600 + m * 60 + s <= i64::MAX
}

/// Reads a duration, as seconds, from `HH:MM:SS`; the parts may have any number of
/// digits and exceed their usual ranges.
pub fn parse_duration_from_time_string(time_str: &str) -> (r: Result<i64, String>)
    requires
        parsed_time(time_str@) matches Ok((h, m, s)) ==> duration_fits(h, m, s),
    ensures
        match parsed_time(time_str@) {
            Ok((h, m, s)) => r matches Ok(d) && d == h * 3600 + m * 60 + s,
            Err(message) => r matches Err(e) && e@ == message,
        },
{
    let chars = chars_of(time_str);
    let parts = split_chars(&chars, ':');
    if parts.len() != 3 {
        let mut e = String::new();
        append_str(&mut e, "Invalid time format, expected HH:MM:SS");
        return Err(e);
    }
    let hours = match parse_i64(&parts[0]) {
        Ok(v) => v,
        Err(error) => {
            let mut e = String::new();
            append_str(&mut e, "Failed to parse hours: ");
            append_str(&mut e, error.message());
            return Err(e);
        },
    };
    let minutes = match parse_i64(&parts[1]) {
        Ok(v) => v,
        Err(error) => {
            let mut e = String::new();
            append_str(&mut e, "Failed to parse minutes: ");
            append_str(&mut e, error.message());
            return Err(e);
        },
    };
    let seconds = match parse_i64(&parts[2]) {
        Ok(v) => v,
        Err(error) => {
            let mut e = String::new();
            append_str(&mut e, "Failed to parse seconds: ");
            append_str(&mut e, error.message());
            return Err(e);
        },
    };
    Ok(hours * 3600 + minutes * 60 + seconds)
}

/// Whether `parse_duration_from_time_string` can read `time_str` without leaving the
/// `i64` range of seconds: either the text is no valid time string, or its hours,
/// minutes and seconds fit (see `duration_fits`).
pub fn time_string_fits(time_str: &str) -> (r: bool)
    ensures
        r == (parsed_time(time_str@) matches Ok((h, m, s)) ==> duration_fits(h, m, s)),
{
    let chars = chars_of(time_str);
    let parts = split_chars(&chars, ':');
    if parts.len() != 3 {
        return true;
    }
    let (hours, minutes, seconds) = match (parse_i64(&parts[0]), parse_i64(&parts[1]), parse_i64(&parts[2])) {
        (Ok(h), Ok(m), Ok(s)) => (h as i128, m as i128, s as i128),
        _ => {
            return true;
        },
    };
    let h = hours * 3600;
    let m = minutes * 60;
    let lo: i128 = -9223372036854775808;
    let hi: i128 = 9223372036854775807;
    lo <= h && h <= hi && lo <= m && m <= hi && lo <= h + m && h + m <= hi && lo <= h + m + seconds && h + m + seconds <= hi
}

/// `a / b` rounded towards zero, for `b > 0`.
pub open spec fn div_toward_zero(a: int, b: int) -> int {
    if a >= 0 {
        a / b
    } else {
        -((-a) / b)
    }
}

/// The remainder of `div_toward_zero`, which has the sign of `a`.
pub open spec fn rem_toward_zero(a: int, b: int) -> int {
    a - b * div_toward_zero(a, b)
}

/// `n` in decimal, with a leading zero for a single digit.
pub open spec fn two_digits(n: int) -> Seq<char> {
    if 0 <= n <= 9 {
        seq!['0'] + int_decimal(n)
    } else {
        int_decimal(n)
    }
}

/// `HH:MM:SS` of a duration of `total` seconds: whole hours, then the minutes and
/// seconds left, each with the sign of `total`.
pub open spec fn time_string(total: int) -> Seq<char> {
    two_digits(div_toward_zero(total, 3600)) + seq![':'] + two_digits(div_toward_zero(rem_toward_zero(total, 3600), 60))
        + seq![':'] + two_digits(rem_toward_zero(total, 60))
}

/// Appends `n` in decimal with at least two characters, as `two_digits` says.
fn push_two_digits(s: &mut String, n: i64)
    ensures
        final(s)@ == old(s)@ + two_digits(n as int),
{
    if 0 <= n && n <= 9 {
        string_push(s, '0');
    }
    push_int_decimal(s, n);
    assert(final(s)@ =~= old(s)@ + two_digits(n as int));
}

/// Writes a duration of `duration` seconds as `HH:MM:SS`, as `time_string` says.
pub fn format_duration_as_time_string(duration: &i64) -> (r: String)
    ensures
        r@ == time_string(*duration as int),
{
    let total: i128 = *duration as i128;
    let negative = total < 0;
    let a: i128 = if negative { -total } else { total };
    let hours_abs: i128 = a / 3600;
    let minutes_abs: i128 = (a % 3600) / 60;
    let seconds_abs: i128 = a % 60;
    proof {
        assert(a % 60 == (a % 3600) % 60) by (nonlinear_arith)
            requires a >= 0;
    }
    let (hours, minutes, seconds): (i128, i128, i128) = if negative {
        (-hours_abs, -minutes_abs, -seconds_abs)
    } else {
        (hours_abs, minutes_abs, seconds_abs)
    };
    let mut s = String::new();
    push_two_digits(&mut s, hours as i64);
    string_push(&mut s, ':');
    push_two_digits(&mut s, minutes as i64);
    string_push(&mut s, ':');
    push_two_digits(&mut s, seconds as i64);
    assert(s@ =~= time_string(*duration as int));
    s
}

proof fn lemma_split_division_nonneg(a: int)
    requires
        a >= 0,
    ensures
        (a / 3600) * 3600 + ((a % 3600) / 60) * 60 + (a % 3600) % 60 == a,
        (a % 3600) % 60 == a % 60,
        0 <= (a / 3600) * 3600 <= a,
        0 <= (a / 3600) * 3600 + ((a % 3600) / 60) * 60 <= a,
        0 <= (a % 3600) / 60,
        0 <= a % 60,
{
    assert((a / 3600) * 3600 + a % 3600 == a) by (nonlinear_arith)
        requires a >= 0;
    assert(((a % 3600) / 60) * 60 + (a % 3600) % 60 == a % 3600) by (nonlinear_arith)
        requires a >= 0;
    assert((a % 3600) % 60 == a % 60) by (nonlinear_arith)
        requires a >= 0;
    assert(0 <= a % 3600 < 3600) by (nonlinear_arith)
        requires a >= 0;
    assert(0 <= (a % 3600) % 60 < 60) by (nonlinear_arith)
        requires a >= 0;
    assert(0 <= (a % 3600) / 60) by (nonlinear_arith)
        requires a >= 0;
    assert(0 <= a / 3600) by (nonlinear_arith)
        requires a >= 0;
    assert(0 <= (a / 3600) * 3600) by (nonlinear_arith)
        requires a / 3600 >= 0;
}

proof fn lemma_time_parts(total: int)
    requires
        i64::MIN <= total <= i64::MAX,
    ensures
        ({
            let h = div_toward_zero(total, 3600);
            let m = div_toward_zero(rem_toward_zero(total, 3600), 60);
            let s = rem_toward_zero(total, 60);
            &&& h * 3600 + m * 60 + s == total
            &&& duration_fits(h, m, s)
            &&& i64::MIN <= h <= i64::MAX
            &&& i64::MIN <= m <= i64::MAX
            &&& i64::MIN <= s <= i64::MAX
        }),
{
    if total >= 0 {
        lemma_split_division_nonneg(total);
    } else {
        lemma_split_division_nonneg(-total);
    }
}

proof fn lemma_two_digits_parse(n: int)
    requires
        i64::MIN <= n <= i64::MAX,
    ensures
        parse_i64_spec(two_digits(n)) == Ok::<int, IntErrorKind>(n),
        !two_digits(n).contains(':'),
{
    if 0 <= n <= 9 {
        lemma_parse_i64_padded_digit(n);
    } else {
        lemma_parse_i64_int_decimal(n);
    }
    let m: nat = if n < 0 { (-n) as nat } else { n as nat };
    lemma_nat_decimal_digits(m);
    if two_digits(n).contains(':') {
        let k = choose|k: int| 0 <= k < two_digits(n).len() && two_digits(n)[k] == ':';
        if n < 0 {
            assert(two_digits(n) == seq!['-'] + nat_decimal(m));
            assert(k >= 1);
            assert(two_digits(n)[k] == nat_decimal(m)[k - 1]);
        } else if n <= 9 {
            assert(two_digits(n) == seq!['0'] + nat_decimal(m));
            assert(k >= 1);
            assert(two_digits(n)[k] == nat_decimal(m)[k - 1]);
        } else {
            assert(two_digits(n) == nat_decimal(m));
        }
        assert(is_ascii_digit(':'));
    }
}

/// Writing a duration as `HH:MM:SS` and reading it back gives the same duration: what
/// `format_duration_as_time_string` writes, `parse_duration_from_time_string` reads
/// without error and without overflow.
pub proof fn lemma_duration_round_trip(total: i64)
    ensures
        parsed_time(time_string(total as int)) matches Ok((h, m, s)) && duration_fits(h, m, s) && h * 3600 + m * 60 + s == total,
{
    let t = total as int;
    let h = div_toward_zero(t, 3600);
    let m = div_toward_zero(rem_toward_zero(t, 3600), 60);
    let s = rem_toward_zero(t, 60);
    lemma_time_parts(t);
    lemma_two_digits_parse(h);
    lemma_two_digits_parse(m);
    lemma_two_digits_parse(s);
    let a = two_digits(h);
    let b = two_digits(m);
    let c = two_digits(s);
    assert(time_string(t) =~= (a.push(':') + b).push(':') + c);
    lemma_split_after_separator(a.push(':') + b, c, ':');
    lemma_split_after_separator(a, b, ':');
    lemma_split_without_separator(a, ':');
    assert(split_at_char(time_string(t), ':') =~= seq![a, b, c]);
}

} // verus!
