//! Gregorian calendar arithmetic: dates from day numbers, month lengths, date texts,
//! and the days on which summaries are due.
use vstd::prelude::*;
use vstd::string::*;
use crate::text::{format_padded, format_padded_signed, padded, padded_signed, push_char};

verus! {

/// Leap years: divisible by 4 but not by 100, or divisible by 400.
pub open spec fn leap(y: int) -> bool {
    (y % 4 == 0 && y % 100 != 0) || y % 400 == 0
}

/// Days in a year.
pub open spec fn year_days(y: int) -> int {
    if leap(y) {
        366
    } else {
        365
    }
}

/// Days in a month (1 = January).
pub open spec fn month_days(y: int, m: int) -> int {
    if m == 2 {
        if leap(y) {
            29
        } else {
            28
        }
    } else if m == 4 || m == 6 || m == 9 || m == 11 {
        30
    } else {
        31
    }
}

/// Days from 1970-01-01 to the first day of year `y`; negative for the years before.
pub open spec fn days_before_year(y: int) -> int
    decreases (if y >= 1970 { y - 1970 } else { 1970 - y }),
{
    if y > 1970 {
        days_before_year(y - 1) + year_days(y - 1)
    } else if y < 1970 {
        days_before_year(y + 1) - year_days(y)
    } else {
        0
    }
}

/// Days from the first of January to the first day of month `m`.
pub open spec fn days_before_month(y: int, m: int) -> int
    decreases m,
{
    if m <= 1 {
        0
    } else {
        days_before_month(y, m - 1) + month_days(y, m - 1)
    }
}

/// A valid date of the proleptic Gregorian calendar, in any year.
pub open spec fn valid_date(y: int, m: int, d: int) -> bool {
    1 <= m <= 12 && 1 <= d <= month_days(y, m)
}

/// A valid date from 1970 on.
pub open spec fn is_date(y: int, m: int, d: int) -> bool {
    y >= 1970 && valid_date(y, m, d)
}

/// Days from 1970-01-01 to the date (negative before it).
pub open spec fn day_number(y: int, m: int, d: int) -> int {
    days_before_year(y) + days_before_month(y, m) + d - 1
}

/// Day of the week counted from Monday (0) to Sunday (6); 1970-01-01 was a Thursday.
pub open spec fn weekday_of(n: int) -> int {
    (n + 3) % 7
}

/// Whether a year is a leap year.
pub fn is_leap_year(year: u64) -> (b: bool)
    ensures
        b == leap(year as int),
{
    (year % 4 == 0 && year % 100 != 0) || year % 400 == 0
}

#[verifier::spinoff_prover]
fn is_leap_signed(year: i64) -> (b: bool)
    ensures
        b == leap(year as int),
{
    let r4 = year % 4;
    let r100 = year % 100;
    let r400 = year % 400;
    assert((year % 4 == 0) == (year as int % 4 == 0)) by (nonlinear_arith);
    assert((year % 100 == 0) == (year as int % 100 == 0)) by (nonlinear_arith);
    assert((year % 400 == 0) == (year as int % 400 == 0)) by (nonlinear_arith);
    (r4 == 0 && r100 != 0) || r400 == 0
}

/// Number of days in the month.
pub fn days_in_month(year: i64, month: u32) -> (n: u32)
    requires
        1 <= month <= 12,
    ensures
        n as int == month_days(year as int, month as int),
{
    if month == 2 {
        if is_leap_signed(year) {
            29
        } else {
            28
        }
    } else if month == 4 || month == 6 || month == 9 || month == 11 {
        30
    } else {
        31
    }
}

proof fn lemma_year_in_months(y: int)
    ensures
        days_before_month(y, 13) == year_days(y),
        days_before_month(y, 12) + month_days(y, 12) == year_days(y),
{
    reveal_with_fuel(days_before_month, 13);
}

/// The date of a day number (days since 1970-01-01) as (year, month, day).
pub fn date_from_days(days: u64) -> (r: (u64, u64, u64))
    ensures
        is_date(r.0 as int, r.1 as int, r.2 as int),
        day_number(r.0 as int, r.1 as int, r.2 as int) == days,
{
    let mut year: u64 = 1970;
    let mut remaining: u64 = days;
    loop
        invariant
            year >= 1970,
            365 * (year - 1970) + remaining <= days,
            days == days_before_year(year as int) + remaining,
        ensures
            year >= 1970,
            365 * (year - 1970) <= days,
            days == days_before_year(year as int) + remaining,
            remaining < year_days(year as int),
        decreases remaining,
    {
        let in_year: u64 = if is_leap_year(year) {
            366
        } else {
            365
        };
        if remaining < in_year {
            break;
        }
        remaining = remaining - in_year;
        year = year + 1;
    }
    let (month, day) = month_and_day(year as i64, remaining);
    (year, month, day)
}

/// The month and day of the day `rem` (counted from 0) of a year.
fn month_and_day(year: i64, rem: u64) -> (r: (u64, u64))
    requires
        rem < year_days(year as int),
    ensures
        valid_date(year as int, r.0 as int, r.1 as int),
        days_before_month(year as int, r.0 as int) + r.1 - 1 == rem,
{
    let mut remaining = rem;
    let mut month: u64 = 1;
    loop
        invariant
            1 <= month <= 12,
            rem == days_before_month(year as int, month as int) + remaining,
            remaining + days_before_month(year as int, month as int) < year_days(year as int),
        ensures
            1 <= month <= 12,
            rem == days_before_month(year as int, month as int) + remaining,
            remaining < month_days(year as int, month as int),
        decreases 12 - month,
    {
        let dim = days_in_month(year, month as u32) as u64;
        if remaining < dim {
            break;
        }
        proof {
            lemma_year_in_months(year as int);
            assert(days_before_month(year as int, month + 1) == days_before_month(
                year as int,
                month as int,
            ) + month_days(year as int, month as int));
        }
        remaining = remaining - dim;
        month = month + 1;
    }
    (month, remaining + 1)
}

/// `YYYY-MM-DD`, each part zero-padded (`{:04}-{:02}-{:02}`).
pub open spec fn date_text(y: int, m: int, d: int) -> Seq<char> {
    padded(y as nat, 4) + "-"@ + padded(m as nat, 2) + "-"@ + padded(d as nat, 2)
}

/// The date text of a day number.
pub fn date_text_of(days: u64) -> (s: String)
    ensures
        exists|y: int, m: int, d: int|
            is_date(y, m, d) && day_number(y, m, d) == days && s@ == date_text(y, m, d),
{
    let (y, m, d) = date_from_days(days);
    let mut s = format_padded(y, 4);
    s.append("-");
    let mm = format_padded(m, 2);
    s.append(mm.as_str());
    s.append("-");
    let dd = format_padded(d, 2);
    s.append(dd.as_str());
    assert(is_date(y as int, m as int, d as int) && day_number(y as int, m as int, d as int) == days
        && s@ == date_text(y as int, m as int, d as int));
    s
}

/// Seconds in a day.
pub const SECS_PER_DAY: u64 = 86400;

/// Today's UTC date as `YYYY-MM-DD`, for a time in seconds since the Unix epoch.
pub fn get_today_date(now_secs: u64) -> (s: String)
    ensures
        exists|y: int, m: int, d: int|
            is_date(y, m, d) && day_number(y, m, d) == now_secs / 86400 && s@ == date_text(y, m, d),
{
    date_text_of(now_secs / SECS_PER_DAY)
}

// ── Summary schedule ────────────────────────────────────────────────

/// A weekly summary is due on Sundays (weekday 6 counted from Monday).
pub fn should_generate_weekly_summary(weekday_from_monday: u32) -> (b: bool)
    ensures
        b == (weekday_from_monday == 6),
{
    weekday_from_monday == 6
}

/// The last day of its month.
pub open spec fn monthly_due(y: int, m: int, d: int) -> bool {
    d == month_days(y, m)
}

/// The last day of March, June, September or December.
pub open spec fn quarterly_due(y: int, m: int, d: int) -> bool {
    (m == 3 || m == 6 || m == 9 || m == 12) && monthly_due(y, m, d)
}

/// The 31st of December.
pub open spec fn yearly_due(m: int, d: int) -> bool {
    m == 12 && d == 31
}

/// A monthly summary is due on the last day of the month.
pub fn should_generate_monthly_summary(year: i64, month: u32, day: u32) -> (b: bool)
    requires
        1 <= month <= 12,
    ensures
        b == monthly_due(year as int, month as int, day as int),
{
    day == days_in_month(year, month)
}

/// A quarterly summary is due on the last day of March, June, September and December.
pub fn should_generate_quarterly_summary(year: i64, month: u32, day: u32) -> (b: bool)
    requires
        1 <= month <= 12,
    ensures
        b == quarterly_due(year as int, month as int, day as int),
{
    if !(month == 3 || month == 6 || month == 9 || month == 12) {
        return false;
    }
    day == days_in_month(year, month)
}

/// A yearly summary is due on the 31st of December.
pub fn should_generate_yearly_summary(month: u32, day: u32) -> (b: bool)
    ensures
        b == yearly_due(month as int, day as int),
{
    month == 12 && day == 31
}

/// The quarter (1 to 4) of a month.
pub fn quarter_of(month: u32) -> (q: u32)
    requires
        1 <= month <= 12,
    ensures
        q == (month - 1) / 3 + 1,
{
    (month - 1) / 3 + 1
}

/// The year as chrono's `%Y` writes it: four digits for years 0 to 9999, else a sign
/// and at least four digits.
pub open spec fn year_field(y: int) -> Seq<char> {
    if 0 <= y < 10000 {
        padded(y as nat, 4)
    } else if y < 0 {
        seq!['-'] + padded((-y) as nat, 4)
    } else {
        seq!['+'] + padded(y as nat, 4)
    }
}

/// Writes a year as `%Y` does (see [`year_field`]).
pub fn format_year_field(y: i64) -> (s: String)
    ensures
        s@ == year_field(y as int),
{
    if 0 <= y && y < 10000 {
        format_padded(y as u64, 4)
    } else if y < 0 {
        let mut s = String::new();
        push_char(&mut s, '-');
        let mag: u64 = if y == i64::MIN {
            0x8000_0000_0000_0000
        } else {
            (-y) as u64
        };
        let body = format_padded(mag, 4);
        s.append(body.as_str());
        s
    } else {
        let mut s = String::new();
        push_char(&mut s, '+');
        let body = format_padded(y as u64, 4);
        s.append(body.as_str());
        s
    }
}

/// The label of a month: `%Y-%m`.
pub fn month_label(year: i64, month: u32) -> (s: String)
    ensures
        s@ == year_field(year as int) + "-"@ + padded(month as nat, 2),
{
    let mut s = format_year_field(year);
    s.append("-");
    let mm = format_padded(month as u64, 2);
    s.append(mm.as_str());
    s
}

/// The label of a quarter: the year, `-Q` and the quarter.
pub fn quarter_label(year: i64, month: u32) -> (s: String)
    requires
        1 <= month <= 12,
    ensures
        s@ == padded_signed(year as int, 0) + "-Q"@ + padded(((month - 1) / 3 + 1) as nat, 0),
{
    let mut s = format_padded_signed(year, 0);
    s.append("-Q");
    let q = format_padded(quarter_of(month) as u64, 0);
    s.append(q.as_str());
    s
}

/// The texts `YYYY-MM-DD` (`{:04}-{:02}-{:02}`, signed year) of every day of a month.
pub open spec fn month_day_texts(y: int, m: int) -> Seq<Seq<char>> {
    Seq::new(
        month_days(y, m) as nat,
        |i: int| padded_signed(y, 4) + "-"@ + padded(m as nat, 2) + "-"@ + padded((i + 1) as nat, 2),
    )
}

/// The date texts of every day of a month, first to last.
pub fn month_dates(year: i64, month: u32) -> (r: Vec<String>)
    requires
        1 <= month <= 12,
    ensures
        r@.map_values(|s: String| s@) == month_day_texts(year as int, month as int),
{
    let dim = days_in_month(year, month);
    let mut r: Vec<String> = Vec::new();
    let mut day: u32 = 1;
    while day <= dim
        invariant
            1 <= day <= dim + 1,
            dim as int == month_days(year as int, month as int),
            dim <= 31,
            r@.map_values(|s: String| s@) == month_day_texts(year as int, month as int).take(
                day - 1,
            ),
        decreases dim + 1 - day,
    {
        let mut s = format_padded_signed(year, 4);
        s.append("-");
        let mm = format_padded(month as u64, 2);
        s.append(mm.as_str());
        s.append("-");
        let dd = format_padded(day as u64, 2);
        s.append(dd.as_str());
        let ghost before = r@;
        assert(s@ == month_day_texts(year as int, month as int)[day - 1]);
        let ghost sv = s@;
        r.push(s);
        assert(r@.map_values(|s: String| s@) =~= before.map_values(|s: String| s@).push(sv));
        assert(month_day_texts(year as int, month as int).take(day as int) =~= month_day_texts(
            year as int,
            month as int,
        ).take(day - 1).push(sv));
        day = day + 1;
    }
    assert(month_day_texts(year as int, month as int).take(dim as int) =~= month_day_texts(
        year as int,
        month as int,
    ));
    r
}

/// Day of the year, 1 for the first of January.
pub open spec fn ordinal(y: int, m: int, d: int) -> int {
    days_before_month(y, m) + d
}

/// The week of the year counted from the first Monday (`%W`, week 0 before it).
pub open spec fn week_from_monday(ordinal: int, weekday_from_monday: int) -> int {
    (ordinal - weekday_from_monday + 6) / 7
}

fn days_before_month_exec(year: i64, month: u32) -> (n: u32)
    requires
        1 <= month <= 12,
    ensures
        n as int == days_before_month(year as int, month as int),
        n <= 341,
{
    let mut n: u32 = 0;
    let mut k: u32 = 1;
    while k < month
        invariant
            1 <= k <= month <= 12,
            n as int == days_before_month(year as int, k as int),
            n <= 31 * (k - 1),
        decreases month - k,
    {
        n = n + days_in_month(year, k);
        k = k + 1;
    }
    n
}

/// The weekly summary label: the year, `-W` and the `%W` week number on two digits.
pub fn weekly_label(year: i64, month: u32, day: u32, weekday_from_monday: u32) -> (s: String)
    requires
        1 <= month <= 12,
        1 <= day <= 31,
        weekday_from_monday <= 6,
    ensures
        s@ == padded_signed(year as int, 0) + "-W"@ + padded(
            week_from_monday(ordinal(year as int, month as int, day as int), weekday_from_monday as int)
                as nat,
            2,
        ),
{
    let ord = days_before_month_exec(year, month) + day;
    let w = (ord + 6 - weekday_from_monday) / 7;
    let mut s = format_padded_signed(year, 0);
    s.append("-W");
    let ws = format_padded(w as u64, 2);
    s.append(ws.as_str());
    s
}

// ── Current week ────────────────────────────────────────────────────

/// The day number of a date from 1970 on.
pub fn day_number_of(year: u64, month: u32, day: u32) -> (n: u64)
    requires
        is_date(year as int, month as int, day as int),
        year <= 262143,
    ensures
        n as int == day_number(year as int, month as int, day as int),
        n <= 366 * (year - 1970) + 400,
{
    let mut n: u64 = 0;
    let mut k: u64 = 1970;
    while k < year
        invariant
            1970 <= k <= year <= 262143,
            n as int == days_before_year(k as int),
            n <= 366 * (k - 1970),
        decreases year - k,
    {
        let yd: u64 = if is_leap_year(k) {
            366
        } else {
            365
        };
        n = n + yd;
        k = k + 1;
    }
    n + days_before_month_exec(year as i64, month) as u64 + day as u64 - 1
}

/// Going from one year to the next adds that year's days, before 1970 as after.
proof fn lemma_days_before_year_next(y: int)
    ensures
        days_before_year(y + 1) == days_before_year(y) + year_days(y),
{
}

/// Day numbers grow between 365 and 366 a year away from 1970.
proof fn lemma_days_before_year_bounds(y: int)
    ensures
        y >= 1970 ==> 365 * (y - 1970) <= days_before_year(y) <= 366 * (y - 1970),
        y <= 1970 ==> -366 * (1970 - y) <= days_before_year(y) <= -365 * (1970 - y),
    decreases (if y >= 1970 { y - 1970 } else { 1970 - y }),
{
    if y > 1970 {
        lemma_days_before_year_bounds(y - 1);
    } else if y < 1970 {
        lemma_days_before_year_bounds(y + 1);
    }
}

/// The day number of a date of a year within chrono's range (see [`day_number`]).
pub fn signed_day_number(year: i64, month: u32, day: u32) -> (n: i64)
    requires
        valid_date(year as int, month as int, day as int),
        -262144 <= year <= 262144,
    ensures
        n as int == day_number(year as int, month as int, day as int),
{
    proof {
        lemma_days_before_year_bounds(year as int);
    }
    let mut acc: i64 = 0;
    if year >= 1970 {
        let mut k: i64 = 1970;
        while k < year
            invariant
                1970 <= k <= year <= 262144,
                acc as int == days_before_year(k as int),
                0 <= acc <= 366 * (k - 1970),
            decreases year - k,
        {
            proof {
                lemma_days_before_year_next(k as int);
            }
            acc = acc + if is_leap_signed(k) {
                366
            } else {
                365
            };
            k = k + 1;
        }
    } else {
        // Days from the first of `year` to 1970-01-01, counted forward.
        let mut k: i64 = year;
        while k < 1970
            invariant
                -262144 <= year <= k <= 1970,
                days_before_year(year as int) + acc == days_before_year(k as int),
                0 <= acc <= 366 * (k - year),
            decreases 1970 - k,
        {
            proof {
                lemma_days_before_year_next(k as int);
            }
            acc = acc + if is_leap_signed(k) {
                366
            } else {
                365
            };
            k = k + 1;
        }
        acc = -acc;
    }
    acc + days_before_month_exec(year, month) as i64 + day as i64 - 1
}

/// The weekday (from Monday) of a day number.
fn weekday_exec(n: i64) -> (w: i64)
    requires
        -200_000_000 <= n <= 200_000_000,
    ensures
        w as int == weekday_of(n as int),
        0 <= w < 7,
{
    let shifted: i64 = n + 3 + 7 * 30_000_000;
    proof {
        vstd::arithmetic::div_mod::lemma_mod_multiples_vanish(30_000_000, n + 3, 7);
    }
    shifted % 7
}

/// The date of a day number within chrono's range of years.
pub fn date_of_day_number(n: i64) -> (r: (i64, u32, u32))
    requires
        -100_000_000 <= n <= 100_000_000,
    ensures
        valid_date(r.0 as int, r.1 as int, r.2 as int),
        day_number(r.0 as int, r.1 as int, r.2 as int) == n,
        -300_000 <= r.0 <= 300_000,
{
    if n >= 0 {
        let (y, m, d) = date_from_days(n as u64);
        proof {
            lemma_days_before_year_bounds(y as int);
            lemma_days_before_month_nonneg(y as int, m as int);
        }
        assert(y <= 300_000);
        assert(m <= 12 && d <= 31);
        return (y as i64, m as u32, d as u32);
    }
    let mut year: i64 = 1970;
    let mut rem: i64 = n;
    while rem < 0
        invariant
            -100_000_000 <= n < 0,
            year <= 1970,
            n == days_before_year(year as int) + rem,
            rem < year_days(year as int),
            n <= rem,
            365 * (1970 - year) <= rem - n,
        decreases (if rem < 0 { -rem } else { 0 }),
    {
        proof {
            lemma_days_before_year_next(year - 1);
        }
        year = year - 1;
        rem = rem + if is_leap_signed(year) {
            366
        } else {
            365
        };
    }
    proof {
        lemma_days_before_year_bounds(year as int);
    }
    let (m, d) = month_and_day(year, rem as u64);
    (year, m as u32, d as u32)
}

/// `YYYY-MM-DD` with the year as chrono's `%Y` writes it (see [`year_field`]): the date
/// format `%Y-%m-%d`.
pub open spec fn ymd_text(y: int, m: int, d: int) -> Seq<char> {
    year_field(y) + "-"@ + padded(m as nat, 2) + "-"@ + padded(d as nat, 2)
}

/// The text names the date with day number `n`, in the format `%Y-%m-%d`.
pub open spec fn names_day(t: Seq<char>, n: int) -> bool {
    exists|y: int, m: int, d: int| valid_date(y, m, d) && day_number(y, m, d) == n && t == ymd_text(y, m, d)
}

/// The `%Y-%m-%d` text of a day number within chrono's range of years.
pub fn day_text_of(n: i64) -> (s: String)
    requires
        -100_000_000 <= n <= 100_000_000,
    ensures
        names_day(s@, n as int),
{
    let (y, m, d) = date_of_day_number(n);
    let mut s = format_year_field(y);
    s.append("-");
    let mm = format_padded(m as u64, 2);
    s.append(mm.as_str());
    s.append("-");
    let dd = format_padded(d as u64, 2);
    s.append(dd.as_str());
    assert(valid_date(y as int, m as int, d as int) && day_number(y as int, m as int, d as int) == n
        && s@ == ymd_text(y as int, m as int, d as int));
    s
}

/// Weekday (from Monday) of the first of January of year `y`.
pub open spec fn jan1_weekday(y: int) -> int {
    weekday_of(days_before_year(y))
}

/// Weekday (from Monday) of the first of January of the year before `y`.
pub open spec fn prev_jan1_weekday(y: int) -> int {
    weekday_of(days_before_year(y) - year_days(y - 1))
}

/// A year with 53 ISO weeks: it starts on a Thursday, or is a leap year starting on a
/// Wednesday.
pub open spec fn long_iso_year(jan1: int, is_leap: bool) -> bool {
    jan1 == 3 || (is_leap && jan1 == 2)
}

/// The ISO-8601 week number of a date given by year, day of the year and weekday.
pub open spec fn iso_week(y: int, ord: int, wd: int) -> int {
    let w = (ord - wd + 9) / 7;
    if w < 1 {
        if long_iso_year(prev_jan1_weekday(y), leap(y - 1)) {
            53
        } else {
            52
        }
    } else if w == 53 && !long_iso_year(jan1_weekday(y), leap(y)) {
        1
    } else {
        w
    }
}

/// The day number of the Monday of a date's week.
pub open spec fn monday_of(y: int, m: int, d: int) -> int {
    day_number(y, m, d) - weekday_of(day_number(y, m, d))
}

/// A date's day number lies within the range the week functions write.
proof fn lemma_day_number_range(y: int, m: int, d: int)
    requires
        valid_date(y, m, d),
        -262144 <= y <= 262144,
    ensures
        -96_800_000 <= day_number(y, m, d) <= 95_300_000,
{
    lemma_days_before_year_bounds(y);
    lemma_days_before_month_nonneg(y, m);
    lemma_year_in_months(y);
    if m < 12 {
        lemma_days_before_month_step(y, m, 13);
    }
}

/// The week of a date: the texts of its Monday and its Sunday (`%Y-%m-%d`), and its
/// label (the `%Y` year, `-W` and the ISO week number on two digits).
#[verifier::spinoff_prover]
#[verifier::rlimit(40)]
pub fn get_current_week_dates(year: i64, month: u32, day: u32) -> (r: (String, String, String))
    requires
        valid_date(year as int, month as int, day as int),
        -262143 <= year <= 262143,
    ensures
        names_day(r.0@, monday_of(year as int, month as int, day as int)),
        names_day(r.1@, monday_of(year as int, month as int, day as int) + 6),
        r.2@ == year_field(year as int) + "-W"@ + padded(
            iso_week(
                year as int,
                ordinal(year as int, month as int, day as int),
                weekday_of(day_number(year as int, month as int, day as int)),
            ) as nat,
            2,
        ),
{
    proof {
        lemma_day_number_range(year as int, month as int, day as int);
    }
    let n = signed_day_number(year, month, day);
    let wd = weekday_exec(n);
    let monday = n - wd;
    let start = day_text_of(monday);
    let end = day_text_of(monday + 6);
    let dby = n - days_before_month_exec(year, month) as i64 - (day as i64 - 1);
    assert(dby as int == days_before_year(year as int));
    let jan1 = weekday_exec(dby);
    let prev_leap = is_leap_signed(year - 1);
    let prev_jan1 = if prev_leap {
        (jan1 + 5) % 7
    } else {
        (jan1 + 6) % 7
    };
    assert(prev_jan1 as int == prev_jan1_weekday(year as int)) by {
        lemma_days_before_year_next(year - 1);
        if prev_leap {
            assert((dby as int - 366 + 3) % 7 == (dby as int + 3 + 5) % 7);
        } else {
            assert((dby as int - 365 + 3) % 7 == (dby as int + 3 + 6) % 7);
        }
    }
    let ord = days_before_month_exec(year, month) as i64 + day as i64;
    let w0 = (ord + 9 - wd) / 7;
    let w: i64 = if w0 < 1 {
        if prev_jan1 == 3 || (prev_leap && prev_jan1 == 2) {
            53
        } else {
            52
        }
    } else if w0 == 53 && !(jan1 == 3 || (is_leap_signed(year) && jan1 == 2)) {
        1
    } else {
        w0
    };
    let mut label = format_year_field(year);
    label.append("-W");
    let ws = format_padded(w as u64, 2);
    label.append(ws.as_str());
    (start, end, label)
}

/// The texts (`%Y-%m-%d`) of the seven days of a date's week, Monday first.
pub fn week_dates(year: i64, month: u32, day: u32) -> (r: Vec<String>)
    requires
        valid_date(year as int, month as int, day as int),
        -262143 <= year <= 262143,
    ensures
        r@.len() == 7,
        forall|k: int| 0 <= k < 7 ==> names_day(#[trigger] r@[k]@, monday_of(year as int, month as int, day as int) + k),
{
    proof {
        lemma_day_number_range(year as int, month as int, day as int);
    }
    let n = signed_day_number(year, month, day);
    let monday = n - weekday_exec(n);
    let mut r: Vec<String> = Vec::new();
    let mut k: i64 = 0;
    while k < 7
        invariant
            0 <= k <= 7,
            monday as int == monday_of(year as int, month as int, day as int),
            -96_800_006 <= monday <= 95_300_000,
            r@.len() == k,
            forall|j: int| 0 <= j < k ==> names_day(#[trigger] r@[j]@, monday + j),
        decreases 7 - k,
    {
        let t = day_text_of(monday + k);
        r.push(t);
        k = k + 1;
    }
    r
}

/// The summaries nest: the day a yearly summary is due, the quarterly one is due too, and
/// the day a quarterly summary is due, the monthly one is due too.
pub proof fn lemma_summaries_nest(y: int, m: int, d: int)
    ensures
        yearly_due(m, d) ==> quarterly_due(y, m, d),
        quarterly_due(y, m, d) ==> monthly_due(y, m, d),
{
}

proof fn lemma_days_before_month_step(y: int, m1: int, m2: int)
    requires
        1 <= m1 < m2 <= 13,
    ensures
        days_before_month(y, m1) + month_days(y, m1) <= days_before_month(y, m2),
    decreases m2 - m1,
{
    if m2 > m1 + 1 {
        lemma_days_before_month_step(y, m1, m2 - 1);
    }
}

proof fn lemma_days_before_year_step(y1: int, y2: int)
    requires
        y1 < y2,
    ensures
        days_before_year(y1) + year_days(y1) <= days_before_year(y2),
    decreases y2 - y1,
{
    lemma_days_before_year_next(y2 - 1);
    if y2 > y1 + 1 {
        lemma_days_before_year_step(y1, y2 - 1);
    }
}

proof fn lemma_day_in_year(y: int, m: int, d: int)
    requires
        valid_date(y, m, d),
    ensures
        days_before_year(y) <= day_number(y, m, d) < days_before_year(y) + year_days(y),
{
    lemma_year_in_months(y);
    if m < 13 {
        if m < 12 {
            lemma_days_before_month_step(y, m, 13);
        }
    }
    lemma_days_before_month_nonneg(y, m);
}

proof fn lemma_days_before_month_nonneg(y: int, m: int)
    ensures
        days_before_month(y, m) >= 0,
    decreases m,
{
    if m > 1 {
        lemma_days_before_month_nonneg(y, m - 1);
    }
}

/// Different dates have different day numbers, before 1970 as after, so a day number
/// names one date: the date that [`date_from_days`] or [`date_of_day_number`] gives back,
/// and the text [`date_text_of`] or [`day_text_of`] writes, are the only ones possible.
pub proof fn lemma_day_number_injective(y1: int, m1: int, d1: int, y2: int, m2: int, d2: int)
    requires
        valid_date(y1, m1, d1),
        valid_date(y2, m2, d2),
        day_number(y1, m1, d1) == day_number(y2, m2, d2),
    ensures
        y1 == y2 && m1 == m2 && d1 == d2,
{
    lemma_day_in_year(y1, m1, d1);
    lemma_day_in_year(y2, m2, d2);
    if y1 < y2 {
        lemma_days_before_year_step(y1, y2);
    } else if y2 < y1 {
        lemma_days_before_year_step(y2, y1);
    } else {
        if m1 < m2 {
            lemma_days_before_month_step(y1, m1, m2);
        } else if m2 < m1 {
            lemma_days_before_month_step(y1, m2, m1);
        }
    }
}

} // verus!
