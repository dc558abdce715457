//! How dates follow each other.

use crate::clock;
use crate::text;
use vstd::prelude::*;
use vstd::string::*;

verus! {

/// Every fourth year is a leap year, but of the centuries only every fourth.
pub proof fn lemma_leap_years(y: int)
    ensures
        y % 400 == 0 ==> clock::is_leap(y),
        y % 100 == 0 && y % 400 != 0 ==> !clock::is_leap(y),
        y % 4 == 0 && y % 100 != 0 ==> clock::is_leap(y),
        y % 4 != 0 ==> !clock::is_leap(y),
{
}

/// The months of a year make up the year.
pub proof fn lemma_months_fill_the_year(y: int)
    ensures
        clock::days_before_month(y, 13) == clock::year_len(y),
        clock::month_len(y, 2) == 28 || clock::month_len(y, 2) == 29,
        clock::month_len(y, 2) == 29 <==> clock::is_leap(y),
{
    reveal_with_fuel(clock::days_before_month, 14);
}

/// The days are counted from the first of January 1970.
pub proof fn lemma_first_day()
    ensures
        clock::date_of(0) == (1970int, 1int, 1int),
{
    assert(clock::days_before_month(1970, 1) == 0);
    assert(clock::is_date_of((1970int, 1int, 1int), 0));
    clock::lemma_date_exists(0);
    clock::lemma_date_unique((1970int, 1int, 1int), clock::date_of(0), 0);
}

/// A day is followed by the next of its month, the last of a month by the first
/// of the next, and the last of a year by the first of the next.
pub proof fn lemma_days_follow(day: int)
    ensures
        ({
            let (y, m, d) = clock::date_of(day);
            clock::date_of(day + 1) == if d < clock::month_len(y, m) {
                (y, m, d + 1)
            } else if m < 12 {
                (y, m + 1, 1int)
            } else {
                (y + 1, 1int, 1int)
            }
        }),
{
    let (y, m, d) = clock::date_of(day);
    clock::lemma_date_exists(day);
    clock::lemma_date_exists(day + 1);
    let next = if d < clock::month_len(y, m) {
        (y, m, d + 1)
    } else if m < 12 {
        (y, m + 1, 1int)
    } else {
        (y + 1, 1int, 1int)
    };
    clock::lemma_days_before_year(y);
    if d >= clock::month_len(y, m) {
        if m < 12 {
            assert(clock::days_before_month(y, m + 1) == clock::days_before_month(y, m)
                + clock::month_len(y, m));
        } else {
            lemma_months_fill_the_year(y);
            assert(clock::days_before_month(y, 13) == clock::days_before_month(y, 12)
                + clock::month_len(y, 12));
            assert(clock::days_before_month(y + 1, 1) == 0);
        }
    }
    assert(clock::is_date_of(next, day + 1));
    clock::lemma_date_unique(next, clock::date_of(day + 1), day + 1);
}

/// Seconds of one day share their date, and a day later it is the same time.
pub proof fn lemma_times_of_day(day: int, second: int)
    requires
        0 <= second < 86_400,
    ensures
        clock::rfc3339_text(86_400 * day + second) == clock::stamp_text(
            clock::date_of(day),
            second,
        ),
{
    let secs = 86_400 * day + second;
    assert(secs / 86_400 == day && secs % 86_400 == second);
}

/// A stamp shows the hour, the minute and the second of its time.
pub proof fn lemma_time_is_shown(date: (int, int, int), hour: int, minute: int, second: int)
    requires
        0 <= hour < 24,
        0 <= minute < 60,
        0 <= second < 60,
    ensures
        text::closes_with(
            clock::stamp_text(date, 3_600 * hour + 60 * minute + second),
            "T"@ + text::padded_int(hour, 2) + ":"@ + text::padded_int(minute, 2) + ":"@
                + text::padded_int(second, 2) + "Z"@,
        ),
        text::opens_with(
            clock::stamp_text(date, 3_600 * hour + 60 * minute + second),
            text::padded_int(date.0, 4) + "-"@ + text::padded_int(date.1, 2) + "-"@
                + text::padded_int(date.2, 2),
        ),
{
    let s = 3_600 * hour + 60 * minute + second;
    assert(s / 3_600 == hour);
    assert(s % 3_600 == 60 * minute + second);
    assert((60 * minute + second) / 60 == minute);
    assert(s % 60 == second);
    let front = text::padded_int(date.0, 4) + "-"@ + text::padded_int(date.1, 2) + "-"@
        + text::padded_int(date.2, 2);
    let back = "T"@ + text::padded_int(hour, 2) + ":"@ + text::padded_int(minute, 2) + ":"@
        + text::padded_int(second, 2) + "Z"@;
    let stamp = clock::stamp_text(date, s);
    assert(stamp == front + back);
    assert(stamp.take(front.len() as int) == front);
    assert(stamp.skip(front.len() as int) == back);
}

/// A reading of the clock counts as it is, as far as 64 bits hold it, and none
/// counts as the beginning.
pub proof fn lemma_readings(n: u64)
    ensures
        n <= i64::MAX ==> clock::reading(Some(n)) == n,
        clock::reading(None) == 0,
{
}

} // verus!
