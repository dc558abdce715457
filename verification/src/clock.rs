//! Timestamps: the proleptic Gregorian calendar, the `YYYY-MM-DDTHH:MM:SSZ`
//! format every row of the database carries, and the system clock.

use crate::text;
use crate::text::padded_i64;
use vstd::prelude::*;
use vstd::string::*;

verus! {

// ---------------------------------------------------------------------------
// Calendar

pub open spec fn is_leap(y: int) -> bool {
    y % 4 == 0 && (y % 100 != 0 || y % 400 == 0)
}

pub open spec fn year_len(y: int) -> int {
    if is_leap(y) {
        366
    } else {
        365
    }
}

pub open spec fn month_len(y: int, m: int) -> int {
    if m == 2 {
        if is_leap(y) {
            29
        } else {
            28
        }
    } else if m == 4 || m == 6 || m == 9 || m == 11 {
        30
    } else {
        31
    }
}

/// Days between 1 January of year 0 and 1 January of year `y`.
pub open spec fn days_before_year(y: int) -> int {
    365 * y + (y + 3) / 4 - (y + 99) / 100 + (y + 399) / 400
}

/// Days between 1 January and the first of month `m` in year `y`.
pub open spec fn days_before_month(y: int, m: int) -> int
    decreases m,
{
    if m <= 1 {
        0
    } else {
        days_before_month(y, m - 1) + month_len(y, m - 1)
    }
}

pub open spec fn is_date(y: int, m: int, d: int) -> bool {
    1 <= m <= 12 && 1 <= d <= month_len(y, m)
}

/// Days between 1 January 1970 and a date.
pub open spec fn unix_day(y: int, m: int, d: int) -> int {
    days_before_year(y) - days_before_year(1970) + days_before_month(y, m) + d - 1
}

/// Whether `t` is the date, as (year, month, day), of a day counted from
/// 1 January 1970.
pub open spec fn is_date_of(t: (int, int, int), day: int) -> bool {
    is_date(t.0, t.1, t.2) && unix_day(t.0, t.1, t.2) == day
}

/// The date of a day counted from 1 January 1970.
pub open spec fn date_of(day: int) -> (int, int, int) {
    choose|t: (int, int, int)| is_date_of(t, day)
}

/// The closed form counts every year at its own length.
pub proof fn lemma_days_before_year(y: int)
    ensures
        days_before_year(0) == 0,
        days_before_year(y + 1) == days_before_year(y) + year_len(y),
{
    lemma_next_4(y);
    lemma_next_100(y);
    lemma_next_400(y);
}

/// A rounded-up quotient grows by one after a multiple of the divisor.
proof fn lemma_next_4(y: int)
    ensures
        (y + 4) / 4 == (y + 3) / 4 + (if y % 4 == 0 {
            1int
        } else {
            0
        }),
{
}

proof fn lemma_next_100(y: int)
    ensures
        (y + 100) / 100 == (y + 99) / 100 + (if y % 100 == 0 {
            1int
        } else {
            0
        }),
        y % 100 == 0 ==> y % 4 == 0,
{
}

proof fn lemma_next_400(y: int)
    ensures
        (y + 400) / 400 == (y + 399) / 400 + (if y % 400 == 0 {
            1int
        } else {
            0
        }),
        y % 400 == 0 ==> y % 100 == 0,
{
}

proof fn lemma_months(y: int)
    ensures
        days_before_month(y, 1) == 0,
        days_before_month(y, 2) == 31,
        days_before_month(y, 3) == 59 + year_len(y) - 365,
        days_before_month(y, 4) == 90 + year_len(y) - 365,
        days_before_month(y, 5) == 120 + year_len(y) - 365,
        days_before_month(y, 6) == 151 + year_len(y) - 365,
        days_before_month(y, 7) == 181 + year_len(y) - 365,
        days_before_month(y, 8) == 212 + year_len(y) - 365,
        days_before_month(y, 9) == 243 + year_len(y) - 365,
        days_before_month(y, 10) == 273 + year_len(y) - 365,
        days_before_month(y, 11) == 304 + year_len(y) - 365,
        days_before_month(y, 12) == 334 + year_len(y) - 365,
        days_before_month(y, 13) == year_len(y),
{
    reveal_with_fuel(days_before_month, 14);
}

proof fn lemma_years_grow(a: int, b: int)
    requires
        a < b,
    ensures
        days_before_year(a) + year_len(a) <= days_before_year(b),
    decreases b - a,
{
    lemma_days_before_year(a);
    if a + 1 < b {
        lemma_years_grow(a + 1, b);
    }
}

/// A day has one date only.
pub proof fn lemma_date_unique(a: (int, int, int), b: (int, int, int), day: int)
    requires
        is_date_of(a, day),
        is_date_of(b, day),
    ensures
        a == b,
{
    lemma_months(a.0);
    lemma_months(b.0);
    if a.0 < b.0 {
        lemma_years_grow(a.0, b.0);
    } else if b.0 < a.0 {
        lemma_years_grow(b.0, a.0);
    }
}

/// Position of a day inside a 400-year cycle that starts on 1 March: the year
/// of the cycle and the day of that year. Only years that end in a leap
/// February have a day 365.
proof fn lemma_year_of_cycle(doe: int, yoe: int, doy: int)
    requires
        0 <= doe < 146_097,
        yoe == (doe - doe / 1_460 + doe / 36_524 - doe / 146_096) / 365,
        doy == doe - (365 * yoe + yoe / 4 - yoe / 100),
    ensures
        0 <= yoe < 400,
        0 <= doy < 365 || (doy == 365 && is_leap(yoe + 1)),
{
    // century of the cycle, leap cycle of the century, year of the leap cycle
    // and day of the year; the last of each takes what is left over
    let c = if doe < 3 * 36_524 {
        doe / 36_524
    } else {
        3
    };
    let r = doe - 36_524 * c;
    let h = if r < 24 * 1_461 {
        r / 1_461
    } else {
        24
    };
    let q = r - 1_461 * h;
    let j = if q < 3 * 365 {
        q / 365
    } else {
        3
    };
    let x = q - 365 * j;
    lemma_leap_days(doe, c, h, j, x);
    assert(0 <= x < 365 || (x == 365 && j == 3 && (h < 24 || c == 3)));
    assert(yoe == 100 * c + 4 * h + j) by {
        assert(yoe == (365 * (100 * c + 4 * h + j) + leap_adjusted(c, h, j, x)) / 365);
    }
    assert(yoe / 4 == 25 * c + h);
    assert(yoe / 100 == c);
}

/// The day of the year, less one where the leap days so far fill up another
/// four years.
spec fn leap_adjusted(c: int, h: int, j: int, x: int) -> int {
    if 24 * c + h + 365 * j + x >= 1_460 {
        x - 1
    } else {
        x
    }
}

/// Taking out the leap days of a day of the cycle leaves years of 365 days.
proof fn lemma_leap_days(doe: int, c: int, h: int, j: int, x: int)
    requires
        0 <= c <= 3,
        0 <= h <= 24,
        0 <= j <= 3,
        doe == 36_524 * c + 1_461 * h + 365 * j + x,
        0 <= x < 365 || (x == 365 && j == 3 && (h < 24 || c == 3)),
    ensures
        doe - doe / 1_460 + doe / 36_524 - doe / 146_096 == 365 * (100 * c + 4 * h + j)
            + leap_adjusted(c, h, j, x),
        0 <= leap_adjusted(c, h, j, x) < 365,
{
    let rest = 24 * c + h + 365 * j + x;
    assert(doe == 1_460 * (25 * c + h) + rest);
    assert(0 <= rest < 2 * 1_460);
    assert(doe / 1_460 == 25 * c + h + (if rest >= 1_460 {
        1int
    } else {
        0
    }));
    if doe == 146_096 {
        assert(c == 3 && h == 24 && j == 3 && x == 365);
    } else {
        assert(doe / 146_096 == 0);
        assert(doe / 36_524 == c);
    }
}

/// Month, counted from March, and day of the month of a day of the year.
proof fn lemma_month_of_year(doy: int, mp: int, d: int)
    requires
        0 <= doy <= 365,
        mp == (5 * doy + 2) / 153,
        d == doy - (153 * mp + 2) / 5 + 1,
    ensures
        0 <= mp <= 11,
        1 <= d <= 31,
        mp == 0 ==> doy == d - 1,
        mp == 1 ==> doy == 31 + d - 1 && d <= 30,
        mp == 2 ==> doy == 61 + d - 1,
        mp == 3 ==> doy == 92 + d - 1 && d <= 30,
        mp == 4 ==> doy == 122 + d - 1,
        mp == 5 ==> doy == 153 + d - 1,
        mp == 6 ==> doy == 184 + d - 1 && d <= 30,
        mp == 7 ==> doy == 214 + d - 1,
        mp == 8 ==> doy == 245 + d - 1 && d <= 30,
        mp == 9 ==> doy == 275 + d - 1,
        mp == 10 ==> doy == 306 + d - 1,
        mp == 11 ==> doy == 337 + d - 1 && d <= 29,
{
}

proof fn lemma_shift_4(e: int, k: int)
    ensures
        (4 * e + k) / 4 == e + k / 4,
        (4 * e + k) % 4 == k % 4,
{
}

proof fn lemma_shift_100(e: int, k: int)
    ensures
        (100 * e + k) / 100 == e + k / 100,
        (100 * e + k) % 100 == k % 100,
{
}

proof fn lemma_shift_400(e: int, k: int)
    ensures
        (400 * e + k) / 400 == e + k / 400,
        (400 * e + k) % 400 == k % 400,
{
}

/// Leap years repeat every 400 years.
proof fn lemma_leap_cycle(era: int, k: int)
    ensures
        is_leap(400 * era + k) == is_leap(k),
{
    lemma_shift_4(100 * era, k);
    lemma_shift_100(4 * era, k);
    lemma_shift_400(era, k);
}

/// The leap days of a cycle up to 1 March of its year `k`.
proof fn lemma_march(k: int)
    requires
        0 <= k < 400,
    ensures
        (k + 3) / 4 - (k + 99) / 100 + (k + 399) / 400 + year_len(k) - 365 == 1 + k / 4 - k / 100,
{
    assert((k + 3) / 4 == k / 4 + (if k % 4 == 0 {
        0int
    } else {
        1
    }));
    assert((k + 99) / 100 == k / 100 + (if k % 100 == 0 {
        0int
    } else {
        1
    }));
    assert((k + 399) / 400 == (if k == 0 {
        0int
    } else {
        1
    }));
    assert(k % 100 == 0 ==> k % 4 == 0);
    assert(k % 400 == 0 <==> k == 0);
}

/// 1 March of year `400 * era + k` is `365 * k + k / 4 - k / 100` days into
/// its 400-year cycle.
proof fn lemma_cycle_start(era: int, k: int)
    requires
        0 <= k < 400,
    ensures
        days_before_year(400 * era + k) + days_before_month(400 * era + k, 3) == 60 + 146_097 * era
            + 365 * k + k / 4 - k / 100,
        is_leap(400 * era + k + 1) == is_leap(k + 1),
{
    let y = 400 * era + k;
    assert((y + 3) / 4 == 100 * era + (k + 3) / 4) by {
        lemma_shift_4(100 * era, k + 3);
    }
    assert((y + 99) / 100 == 4 * era + (k + 99) / 100) by {
        lemma_shift_100(4 * era, k + 99);
    }
    assert((y + 399) / 400 == era + (k + 399) / 400) by {
        lemma_shift_400(era, k + 399);
    }
    assert(year_len(y) == year_len(k)) by {
        lemma_leap_cycle(era, k);
    }
    assert(is_leap(y + 1) == is_leap(k + 1)) by {
        lemma_leap_cycle(era, k + 1);
    }
    assert(days_before_month(y, 3) == 59 + year_len(y) - 365) by {
        lemma_months(y);
    }
    lemma_march(k);
}

proof fn lemma_civil(day: int, era: int, doe: int, yoe: int, doy: int, mp: int, d: int)
    requires
        day + 719_468 == 146_097 * era + doe,
        0 <= doe < 146_097,
        yoe == (doe - doe / 1_460 + doe / 36_524 - doe / 146_096) / 365,
        doy == doe - (365 * yoe + yoe / 4 - yoe / 100),
        mp == (5 * doy + 2) / 153,
        d == doy - (153 * mp + 2) / 5 + 1,
    ensures
        mp < 10 ==> date_of(day) == (400 * era + yoe, mp + 3, d),
        mp >= 10 ==> date_of(day) == (400 * era + yoe + 1, mp - 9, d),
        is_date_of(date_of(day), day),
        0 <= yoe < 400,
        0 <= doy <= 365,
        0 <= mp <= 11,
{
    lemma_year_of_cycle(doe, yoe, doy);
    lemma_month_of_year(doy, mp, d);
    lemma_cycle_start(era, yoe);
    let y = 400 * era + yoe;
    lemma_months(y);
    lemma_months(y + 1);
    lemma_days_before_year(y);
    assert(days_before_year(1970) == 719_528);
    let t = if mp < 10 {
        (y, mp + 3, d)
    } else {
        (y + 1, mp - 9, d)
    };
    assert(is_date_of(t, day));
    lemma_date_unique(t, date_of(day), day);
}

/// Every day has a date.
pub proof fn lemma_date_exists(day: int)
    ensures
        is_date_of(date_of(day), day),
{
    let era = (day + 719_468) / 146_097;
    let doe = (day + 719_468) % 146_097;
    let yoe = (doe - doe / 1_460 + doe / 36_524 - doe / 146_096) / 365;
    let doy = doe - (365 * yoe + yoe / 4 - yoe / 100);
    let mp = (5 * doy + 2) / 153;
    lemma_civil(day, era, doe, yoe, doy, mp, doy - (153 * mp + 2) / 5 + 1);
}

/// A date stands before another by year, then month, then day.
pub open spec fn date_lt(a: (int, int, int), b: (int, int, int)) -> bool {
    a.0 < b.0 || (a.0 == b.0 && (a.1 < b.1 || (a.1 == b.1 && a.2 < b.2)))
}

/// A later day has a later date.
pub proof fn lemma_dates_in_order(a: int, b: int)
    requires
        a < b,
    ensures
        date_lt(date_of(a), date_of(b)),
{
    lemma_date_exists(a);
    lemma_date_exists(b);
    let (s, t) = (date_of(a), date_of(b));
    lemma_months(s.0);
    lemma_months(t.0);
    if t.0 < s.0 {
        lemma_years_grow(t.0, s.0);
    }
}

/// The days whose year has four digits, from the epoch on.
proof fn lemma_year_range(day: int)
    requires
        0 <= day <= 2_932_896,
    ensures
        1970 <= date_of(day).0 <= 9999,
{
    lemma_date_exists(day);
    let y = date_of(day).0;
    lemma_months(y);
    assert(days_before_year(1970) == 719_528);
    assert(days_before_year(9999) + year_len(9999) == 3_652_425);
    if y < 1970 {
        lemma_years_grow(y, 1970);
    }
    if y > 9999 {
        lemma_years_grow(9999, y);
    }
}

// ---------------------------------------------------------------------------
// Timestamps

/// `YYYY-MM-DDTHH:MM:SSZ` of a date and a second of its day.
pub open spec fn stamp_text(date: (int, int, int), second: int) -> Seq<char> {
    text::padded_int(date.0, 4) + "-"@ + text::padded_int(date.1, 2) + "-"@ + text::padded_int(
        date.2,
        2,
    ) + "T"@ + text::padded_int(second / 3_600, 2) + ":"@ + text::padded_int(
        second % 3_600 / 60,
        2,
    ) + ":"@ + text::padded_int(second % 60, 2) + "Z"@
}

/// The UTC timestamp of a count of seconds since the Unix epoch.
pub open spec fn rfc3339_text(secs: int) -> Seq<char> {
    stamp_text(date_of(secs / 86_400), secs % 86_400)
}

/// Whether a text is the timestamp of some moment that 64 bits of seconds reach.
pub open spec fn is_stamp(s: Seq<char>) -> bool {
    exists|secs: int| i64::MIN <= secs <= i64::MAX && s == #[trigger] rfc3339_text(secs)
}

/// The last second whose year has four digits: 9999-12-31T23:59:59Z.
pub const LAST_SECOND: i64 = 253_402_300_799;

/// Whether a text reads `YYYY-MM-DDTHH:MM:SSZ`, a digit for each letter of a
/// field.
pub open spec fn has_stamp_shape(s: Seq<char>) -> bool {
    &&& s.len() == 20
    &&& s[4] == '-' && s[7] == '-' && s[10] == 'T' && s[13] == ':' && s[16] == ':' && s[19] == 'Z'
    &&& forall|i: int|
        0 <= i < 19 && i != 4 && i != 7 && i != 10 && i != 13 && i != 16 ==> '0' <= #[trigger] s[i]
            <= '9'
}

/// The characters of a timestamp whose year has four digits.
spec fn stamp_chars(t: (int, int, int), second: int) -> Seq<char> {
    field_chars(t, second / 3_600, second % 3_600 / 60, second % 60)
}

/// The characters of a timestamp by its fields.
spec fn field_chars(t: (int, int, int), h: int, m: int, s: int) -> Seq<char> {
    seq![
        text::digit_char(t.0 / 1_000),
        text::digit_char(t.0 / 100 % 10),
        text::digit_char(t.0 / 10 % 10),
        text::digit_char(t.0 % 10),
        '-',
        text::digit_char(t.1 / 10),
        text::digit_char(t.1 % 10),
        '-',
        text::digit_char(t.2 / 10),
        text::digit_char(t.2 % 10),
        'T',
        text::digit_char(h / 10),
        text::digit_char(h % 10),
        ':',
        text::digit_char(m / 10),
        text::digit_char(m % 10),
        ':',
        text::digit_char(s / 10),
        text::digit_char(s % 10),
        'Z',
    ]
}

/// Whether the fields of a timestamp fit their digits.
spec fn fields_fit(t: (int, int, int), second: int) -> bool {
    0 <= t.0 <= 9999 && 0 <= t.1 < 100 && 0 <= t.2 < 100 && 0 <= second < 86_400
}

proof fn lemma_stamp_chars(t: (int, int, int), second: int)
    requires
        fields_fit(t, second),
    ensures
        stamp_text(t, second) == stamp_chars(t, second),
        has_stamp_shape(stamp_text(t, second)),
{
    text::lemma_padded_four(t.0);
    text::lemma_padded_two(t.1);
    text::lemma_padded_two(t.2);
    text::lemma_padded_two(second / 3_600);
    text::lemma_padded_two(second % 3_600 / 60);
    text::lemma_padded_two(second % 60);
    reveal_strlit("-");
    reveal_strlit("T");
    reveal_strlit(":");
    reveal_strlit("Z");
    assert(stamp_text(t, second) =~= stamp_chars(t, second));
}

/// Of two different pairs of digits the smaller number has the smaller digit
/// first.
proof fn lemma_two_digits(a: int, b: int)
    requires
        0 <= a < b < 100,
    ensures
        a / 10 < b / 10 || (a / 10 == b / 10 && a % 10 < b % 10),
{
}

/// A number is the sum of its digits at their places.
proof fn lemma_digits(n: int)
    requires
        0 <= n < 10_000,
    ensures
        n == 1_000 * (n / 1_000) + 100 * (n / 100 % 10) + 10 * (n / 10 % 10) + n % 10,
{
    assert(n / 10 / 10 == n / 100);
    assert(n / 100 / 10 == n / 1_000);
    assert(n == 10 * (n / 10) + n % 10);
    assert(n / 10 == 10 * (n / 10 / 10) + n / 10 % 10);
    assert(n / 100 == 10 * (n / 100 / 10) + n / 100 % 10);
}

proof fn lemma_four_digits(a: int, b: int)
    requires
        0 <= a < b < 10_000,
    ensures
        ({
            ||| a / 1_000 < b / 1_000
            ||| a / 1_000 == b / 1_000 && a / 100 % 10 < b / 100 % 10
            ||| a / 1_000 == b / 1_000 && a / 100 % 10 == b / 100 % 10 && a / 10 % 10 < b / 10 % 10
            ||| a / 1_000 == b / 1_000 && a / 100 % 10 == b / 100 % 10 && a / 10 % 10 == b / 10 % 10
                && a % 10 < b % 10
        }),
{
    lemma_digits(a);
    lemma_digits(b);
}

/// A smaller date puts a timestamp first.
proof fn lemma_date_order(a: (int, int, int), sa: int, b: (int, int, int), sb: int)
    requires
        fields_fit(a, sa),
        fields_fit(b, sb),
        date_lt(a, b),
    ensures
        text::text_lt(stamp_chars(a, sa), stamp_chars(b, sb)),
{
    let (x, y) = (stamp_chars(a, sa), stamp_chars(b, sb));
    if a.0 != b.0 {
        lemma_four_digits(a.0, b.0);
        let k: int = if x[0] != y[0] {
            0
        } else if x[1] != y[1] {
            1
        } else if x[2] != y[2] {
            2
        } else {
            3
        };
        text::lemma_first_difference(x, y, k);
    } else if a.1 != b.1 {
        lemma_two_digits(a.1, b.1);
        text::lemma_first_difference(x, y, if x[5] != y[5] { 5 } else { 6 });
    } else {
        lemma_two_digits(a.2, b.2);
        text::lemma_first_difference(x, y, if x[8] != y[8] { 8 } else { 9 });
    }
}

/// Whether a time of day comes before another.
spec fn time_lt(a: (int, int, int), b: (int, int, int)) -> bool {
    a.0 < b.0 || (a.0 == b.0 && (a.1 < b.1 || (a.1 == b.1 && a.2 < b.2)))
}

proof fn lemma_time_fields(a: int, b: int)
    requires
        0 <= a < b < 86_400,
    ensures
        time_lt((a / 3_600, a % 3_600 / 60, a % 60), (b / 3_600, b % 3_600 / 60, b % 60)),
        0 <= a / 3_600 < 24 && 0 <= a % 3_600 / 60 < 60 && 0 <= a % 60 < 60,
        0 <= b / 3_600 < 24 && 0 <= b % 3_600 / 60 < 60 && 0 <= b % 60 < 60,
{
    assert(a == 3_600 * (a / 3_600) + a % 3_600);
    assert(b == 3_600 * (b / 3_600) + b % 3_600);
    assert(a % 3_600 % 60 == a % 60 && b % 3_600 % 60 == b % 60);
}

/// A smaller time puts a timestamp of the same date first.
proof fn lemma_time_order(t: (int, int, int), a: (int, int, int), b: (int, int, int))
    requires
        0 <= a.0 < 60 && 0 <= a.1 < 60 && 0 <= a.2 < 60,
        0 <= b.0 < 60 && 0 <= b.1 < 60 && 0 <= b.2 < 60,
        time_lt(a, b),
    ensures
        text::text_lt(field_chars(t, a.0, a.1, a.2), field_chars(t, b.0, b.1, b.2)),
{
    let (x, y) = (field_chars(t, a.0, a.1, a.2), field_chars(t, b.0, b.1, b.2));
    if a.0 != b.0 {
        lemma_two_digits(a.0, b.0);
        text::lemma_first_difference(x, y, if x[11] != y[11] { 11 } else { 12 });
    } else if a.1 != b.1 {
        lemma_two_digits(a.1, b.1);
        text::lemma_first_difference(x, y, if x[14] != y[14] { 14 } else { 15 });
    } else {
        lemma_two_digits(a.2, b.2);
        text::lemma_first_difference(x, y, if x[17] != y[17] { 17 } else { 18 });
    }
}

/// Timestamps sort as texts the way their moments do, and all have the same
/// twenty-character shape, from the epoch to the end of the year 9999.
pub proof fn lemma_stamps_sort(a: int, b: int)
    requires
        0 <= a < b <= LAST_SECOND,
    ensures
        text::text_lt(rfc3339_text(a), rfc3339_text(b)),
        has_stamp_shape(rfc3339_text(a)),
        has_stamp_shape(rfc3339_text(b)),
{
    let (da, db) = (a / 86_400, b / 86_400);
    lemma_year_range(da);
    lemma_year_range(db);
    lemma_date_exists(da);
    lemma_date_exists(db);
    lemma_stamp_chars(date_of(da), a % 86_400);
    lemma_stamp_chars(date_of(db), b % 86_400);
    if da < db {
        lemma_dates_in_order(da, db);
        lemma_date_order(date_of(da), a % 86_400, date_of(db), b % 86_400);
    } else {
        let (sa, sb) = (a % 86_400, b % 86_400);
        lemma_time_fields(sa, sb);
        lemma_time_order(
            date_of(da),
            (sa / 3_600, sa % 3_600 / 60, sa % 60),
            (sb / 3_600, sb % 3_600 / 60, sb % 60),
        );
    }
}

/// Quotient and remainder of a division that rounds towards minus infinity.
fn split_div(a: i64, b: i64) -> (r: (i64, i64))
    requires
        1 < b < 1_000_000,
    ensures
        r.0 == a as int / b as int,
        r.1 == a as int % b as int,
        0 <= r.1 < b,
        a == r.0 * b + r.1,
{
    if a >= 0 {
        assert(a as int / b as int * b as int + a as int % b as int == a) by (nonlinear_arith)
            requires
                b > 0,
        ;
        (a / b, a % b)
    } else {
        let n: i64 = -(a + 1);
        let q: i64 = n / b;
        let m: i64 = n % b;
        proof {
            let (ai, bi, qi, mi) = (a as int, b as int, q as int, m as int);
            assert(0 <= q <= n) by (nonlinear_arith)
                requires
                    q == n as int / b as int,
                    n >= 0,
                    b > 1,
            ;
            assert(0 <= m < b) by (nonlinear_arith)
                requires
                    m == n as int % b as int,
                    b > 1,
            ;
            assert(ai == (-1 - qi) * bi + (bi - 1 - mi)) by (nonlinear_arith)
                requires
                    qi == (-(ai + 1)) / bi,
                    mi == (-(ai + 1)) % bi,
                    bi > 1,
            ;
            vstd::arithmetic::div_mod::lemma_fundamental_div_mod_converse(
                ai,
                bi,
                -1 - qi,
                bi - 1 - mi,
            );
        }
        (-1 - q, b - 1 - m)
    }
}

/// Year, month and day of a day counted from 1 January 1970.
fn civil_from_days(days: i64) -> (r: (i64, i64, i64))
    requires
        -200_000_000_000_000 <= days <= 200_000_000_000_000,
    ensures
        date_of(days as int) == (r.0 as int, r.1 as int, r.2 as int),
{
    let (era, doe) = split_div(days + 719_468, 146_097);
    let yoe: i64 = (doe - doe / 1_460 + doe / 36_524 - doe / 146_096) / 365;
    proof {
        lemma_year_of_cycle(
            doe as int,
            yoe as int,
            doe - (365 * yoe + yoe as int / 4 - yoe as int / 100),
        );
    }
    let doy: i64 = doe - (365 * yoe + yoe / 4 - yoe / 100);
    let mp: i64 = (5 * doy + 2) / 153;
    let d: i64 = doy - (153 * mp + 2) / 5 + 1;
    proof {
        lemma_civil(
            days as int,
            era as int,
            doe as int,
            yoe as int,
            doy as int,
            mp as int,
            d as int,
        );
    }
    if mp < 10 {
        (yoe + era * 400, mp + 3, d)
    } else {
        (yoe + era * 400 + 1, mp - 9, d)
    }
}

/// Unix seconds to `YYYY-MM-DDTHH:MM:SSZ`, in the proleptic Gregorian
/// calendar.
pub fn rfc3339_from_unix(secs: i64) -> (r: String)
    ensures
        r@ == rfc3339_text(secs as int),
{
    let (days, rem) = split_div(secs, 86_400);
    let (y, m, d) = civil_from_days(days);
    padded_i64(y, 4).concat("-").concat(padded_i64(m, 2).as_str()).concat("-").concat(
        padded_i64(d, 2).as_str(),
    ).concat("T").concat(padded_i64(rem / 3_600, 2).as_str()).concat(":").concat(
        padded_i64(rem % 3_600 / 60, 2).as_str(),
    ).concat(":").concat(padded_i64(rem % 60, 2).as_str()).concat("Z")
}

/// `SystemTime::now()` as whole seconds since the Unix epoch, or `None` when
/// the system clock reads an earlier time. The clock decides; nothing is
/// claimed about the value.
#[verifier::external_body]
fn system_seconds() -> (r: Option<u64>) {
    std::time::SystemTime::now().duration_since(std::time::UNIX_EPOCH).ok().map(|d| d.as_secs())
}

/// What a clock reading is in seconds: a signed number of 64 bits. A clock set
/// before the epoch reads as the epoch itself.
pub open spec fn reading(seconds: Option<u64>) -> int {
    match seconds {
        None => 0,
        Some(n) => if n <= i64::MAX {
            n as int
        } else {
            n - 0x1_0000_0000_0000_0000
        },
    }
}

/// The timestamp of a clock reading.
pub fn stamp_of_reading(seconds: Option<u64>) -> (r: String)
    ensures
        r@ == rfc3339_text(reading(seconds)),
        is_stamp(r@),
{
    let secs: i64 = match seconds {
        None => 0,
        Some(n) => if n <= i64::MAX as u64 {
            n as i64
        } else {
            -((u64::MAX - n) as i64) - 1
        },
    };
    rfc3339_from_unix(secs)
}

/// Current time as an RFC3339 UTC string, seconds precision.
pub fn now_rfc3339() -> (r: String)
    ensures
        is_stamp(r@),
{
    stamp_of_reading(system_seconds())
}

} // verus!
