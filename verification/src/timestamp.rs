//! The plain RFC 3339 date-time form (`YYYY-MM-DDThh:mm:ss`, an optional
//! fraction of a second, then `Z` or a `+hh:mm` / `-hh:mm` offset) and the
//! Unix time, in whole seconds, of the instant it names.

use vstd::prelude::*;

verus! {

pub open spec fn is_ascii_digit(c: char) -> bool {
    '0' <= c && c <= '9'
}

/// The value of the decimal digit at `t[i]`.
pub open spec fn digit_at(t: Seq<char>, i: int) -> int {
    t[i] as int - '0' as int
}

/// `t[i..i + n]` are all decimal digits.
pub open spec fn digits_at(t: Seq<char>, i: int, n: int) -> bool {
    forall|j: int| i <= j < i + n ==> is_ascii_digit(#[trigger] t[j])
}

pub open spec fn two_digits(t: Seq<char>, i: int) -> int {
    10 * digit_at(t, i) + digit_at(t, i + 1)
}

pub open spec fn four_digits(t: Seq<char>, i: int) -> int {
    100 * two_digits(t, i) + two_digits(t, i + 2)
}

/// The end of the run of decimal digits that starts at `i`.
pub open spec fn digit_run_end(t: Seq<char>, i: int) -> int
    decreases t.len() - i,
{
    if 0 <= i < t.len() && is_ascii_digit(t[i]) {
        digit_run_end(t, i + 1)
    } else {
        i
    }
}

/// Gregorian leap years.
pub open spec fn is_leap_year(y: int) -> bool {
    y % 4 == 0 && (y % 100 != 0 || y % 400 == 0)
}

pub open spec fn days_in_month(y: int, m: int) -> int {
    if m == 2 {
        if is_leap_year(y) {
            29
        } else {
            28
        }
    } else if m == 4 || m == 6 || m == 9 || m == 11 {
        30
    } else {
        31
    }
}

/// Days of year `y` before the first day of month `m`.
pub open spec fn days_before_month(y: int, m: int) -> int
    decreases m,
{
    if m <= 1 {
        0
    } else {
        days_before_month(y, m - 1) + days_in_month(y, m - 1)
    }
}

/// Days from 0000-01-01 to the first day of year `y` (for `y >= 0`), in the
/// proleptic Gregorian calendar.
pub open spec fn days_before_year(y: int) -> int {
    365 * y + (y + 3) / 4 - (y + 99) / 100 + (y + 399) / 400
}

/// Days from 1970-01-01 to the date `y-m-d`.
pub open spec fn days_from_unix_epoch(y: int, m: int, d: int) -> int {
    days_before_year(y) + days_before_month(y, m) + d - 1 - days_before_year(1970)
}

/// Where the zone of a date-time starts: right after the seconds, or after
/// the digits of a fraction of a second.
pub open spec fn zone_start(t: Seq<char>) -> int {
    if t.len() > 19 && t[19] == '.' {
        digit_run_end(t, 20)
    } else {
        19
    }
}

/// The offset from UTC, in seconds, of a zone that starts at `z` and ends
/// the text: `Z` (either case) is zero, `+hh:mm` east and `-hh:mm` west of
/// UTC, with `hh` at most 23 and `mm` at most 59.
pub open spec fn zone_offset_seconds(t: Seq<char>, z: int) -> Option<int> {
    if t.len() == z + 1 && (t[z] == 'Z' || t[z] == 'z') {
        Some(0)
    } else if t.len() == z + 6 && (t[z] == '+' || t[z] == '-') && digits_at(t, z + 1, 2) && t[z
        + 3] == ':' && digits_at(t, z + 4, 2) && two_digits(t, z + 1) <= 23 && two_digits(t, z + 4)
        <= 59 {
        let magnitude = two_digits(t, z + 1) * 3600 + two_digits(t, z + 4) * 60;
        Some(
            if t[z] == '-' {
                -magnitude
            } else {
                magnitude
            },
        )
    } else {
        None
    }
}

/// The layout `YYYY-MM-DDThh:mm:ss`, with a fraction of a second, if there
/// is one, made of at least one digit.
pub open spec fn has_date_time_layout(t: Seq<char>) -> bool {
    &&& t.len() >= 19
    &&& digits_at(t, 0, 4)
    &&& t[4] == '-'
    &&& digits_at(t, 5, 2)
    &&& t[7] == '-'
    &&& digits_at(t, 8, 2)
    &&& t[10] == 'T'
    &&& digits_at(t, 11, 2)
    &&& t[13] == ':'
    &&& digits_at(t, 14, 2)
    &&& t[16] == ':'
    &&& digits_at(t, 17, 2)
    &&& t.len() > 19 && t[19] == '.' ==> zone_start(t) > 20
}

/// The date and time of day that the layout writes are real ones: a month
/// from 1 to 12, a day of that month, hours up to 23, minutes and seconds up
/// to 59.
pub open spec fn has_valid_fields(t: Seq<char>) -> bool {
    let y = four_digits(t, 0);
    let mo = two_digits(t, 5);
    let d = two_digits(t, 8);
    &&& 1 <= mo <= 12
    &&& 1 <= d <= days_in_month(y, mo)
    &&& two_digits(t, 11) <= 23
    &&& two_digits(t, 14) <= 59
    &&& two_digits(t, 17) <= 59
}

/// The seconds from 1970-01-01T00:00:00 to the date and time of day that `t`
/// writes, read as if it were UTC (the fraction of a second is dropped).
pub open spec fn civil_seconds(t: Seq<char>) -> int {
    days_from_unix_epoch(four_digits(t, 0), two_digits(t, 5), two_digits(t, 8)) * 86400
        + two_digits(t, 11) * 3600 + two_digits(t, 14) * 60 + two_digits(t, 17)
}

/// The Unix time, in whole seconds, of a date-time in the plain RFC 3339
/// form: the date and time it writes less its offset from UTC. `None` for
/// text not in that form.
pub open spec fn rfc3339_form_seconds(t: Seq<char>) -> Option<int> {
    if has_date_time_layout(t) && has_valid_fields(t) {
        match zone_offset_seconds(t, zone_start(t)) {
            Some(offset) => Some(civil_seconds(t) - offset),
            None => None,
        }
    } else {
        None
    }
}

/// The digits from `i` on run up to `digit_run_end(t, i)`, which is the end
/// of the text or a character that is not a digit.
pub proof fn lemma_digit_run_end(t: Seq<char>, i: int)
    requires
        0 <= i <= t.len(),
    ensures
        i <= digit_run_end(t, i) <= t.len(),
        digits_at(t, i, digit_run_end(t, i) - i),
        digit_run_end(t, i) < t.len() ==> !is_ascii_digit(t[digit_run_end(t, i)]),
    decreases t.len() - i,
{
    if i < t.len() && is_ascii_digit(t[i]) {
        lemma_digit_run_end(t, i + 1);
    }
}

/// A run of `n` digits from `i` that the end of the text or a non-digit
/// closes ends at `i + n`.
pub proof fn lemma_digit_run_end_at(t: Seq<char>, i: int, n: int)
    requires
        0 <= i,
        0 <= n,
        i + n <= t.len(),
        digits_at(t, i, n),
        i + n == t.len() || !is_ascii_digit(t[i + n]),
    ensures
        digit_run_end(t, i) == i + n,
    decreases n,
{
    if n > 0 {
        assert(is_ascii_digit(t[i]));
        assert forall|j: int| i + 1 <= j < i + 1 + (n - 1) implies is_ascii_digit(t[j]) by {}
        lemma_digit_run_end_at(t, i + 1, n - 1);
    }
}

proof fn lemma_days_before_month_range(y: int, m: int)
    requires
        1 <= m <= 12,
    ensures
        0 <= days_before_month(y, m) <= 31 * (m - 1),
    decreases m,
{
    if m > 1 {
        lemma_days_before_month_range(y, m - 1);
    }
}

/// The Unix time of a plain RFC 3339 timestamp (years 0000 to 9999) fits in
/// an `i64`.
pub proof fn lemma_form_seconds_range(t: Seq<char>)
    ensures
        rfc3339_form_seconds(t) matches Some(v) ==> i64::MIN <= v <= i64::MAX,
{
    if rfc3339_form_seconds(t) is Some {
        assert(is_ascii_digit(t[0]) && is_ascii_digit(t[1]) && is_ascii_digit(t[2])
            && is_ascii_digit(t[3]));
        assert(is_ascii_digit(t[11]) && is_ascii_digit(t[12]));
        assert(is_ascii_digit(t[14]) && is_ascii_digit(t[15]));
        assert(is_ascii_digit(t[17]) && is_ascii_digit(t[18]));
        let y = four_digits(t, 0);
        assert(0 <= y <= 9999);
        lemma_days_before_month_range(y, two_digits(t, 5));
        let days = days_from_unix_epoch(y, two_digits(t, 5), two_digits(t, 8));
        assert(-800000 <= days <= 3000000);
        let z = zone_start(t);
        if t.len() == z + 6 {
            assert(is_ascii_digit(t[z + 1]) && is_ascii_digit(t[z + 2]));
            assert(is_ascii_digit(t[z + 4]) && is_ascii_digit(t[z + 5]));
        }
    }
}

} // verus!
