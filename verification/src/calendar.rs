//! Civil-calendar arithmetic on day counts since 1970-01-01, and the date and
//! time strings that the statistics store keys its rows by (UTC+8 local time).

use vstd::prelude::*;
use crate::clock;
use crate::text;

verus! {

/// Seconds that UTC+8 local time is ahead of UTC.
pub const UTC8_OFFSET_SECS: u64 = 28800;

pub const SECS_PER_DAY: u64 = 86400;

/// Whether a Gregorian year is a leap year.
pub open spec fn spec_is_leap(y: int) -> bool {
    (y % 4 == 0 && y % 100 != 0) || y % 400 == 0
}

pub open spec fn days_in_year(y: int) -> int {
    if spec_is_leap(y) { 366 } else { 365 }
}

/// Days from 1970-01-01 to the first day of year `y` (0 for years up to 1970).
pub open spec fn days_before_year(y: int) -> int
    decreases y - 1970,
{
    if y <= 1970 {
        0
    } else {
        days_before_year(y - 1) + days_in_year(y - 1)
    }
}

/// Length of month `m` (1 to 12) of year `y`.
pub open spec fn month_len(y: int, m: int) -> int {
    if m == 2 {
        if spec_is_leap(y) { 29 } else { 28 }
    } else if m == 4 || m == 6 || m == 9 || m == 11 {
        30
    } else {
        31
    }
}

/// Days from the first of the year to the first of month `m` (0 for `m` up to 1).
pub open spec fn days_before_month(y: int, m: int) -> int
    decreases m,
{
    if m <= 1 {
        0
    } else {
        days_before_month(y, m - 1) + month_len(y, m - 1)
    }
}

/// The day count that `ymd_to_days` computes for year, month and day.
pub open spec fn date_index(y: int, m: int, d: int) -> int {
    days_before_year(y) + days_before_month(y, m) + d - 1
}

/// A real calendar date from 1970 on.
pub open spec fn is_civil_date(y: int, m: int, d: int) -> bool {
    &&& y >= 1970
    &&& 1 <= m <= 12
    &&& 1 <= d <= month_len(y, m)
}

/// The calendar date that falls `n` days after 1970-01-01.
pub open spec fn civil_from_days(n: int) -> (int, int, int) {
    choose|t: (int, int, int)| is_civil_date(t.0, t.1, t.2) && date_index(t.0, t.1, t.2) == n
}

/// `YYYY-MM-DD`, each field zero-padded (years past 9999 keep all their digits).
pub open spec fn format_date(y: nat, m: nat, d: nat) -> Seq<char> {
    text::padded_decimal(y, 4) + seq!['-'] + text::padded_decimal(m, 2) + seq!['-'] + text::padded_decimal(d, 2)
}

/// The formatted calendar date `n` days after 1970-01-01.
pub open spec fn format_day(n: int) -> Seq<char> {
    let t = civil_from_days(n);
    format_date(t.0 as nat, t.1 as nat, t.2 as nat)
}

/// `YYYY-MM-DD HH:MM` in UTC+8 for a Unix time in seconds.
pub open spec fn local_datetime(secs: nat) -> Seq<char> {
    let local: int = secs + UTC8_OFFSET_SECS;
    let in_day: int = local % (SECS_PER_DAY as int);
    format_day(local / (SECS_PER_DAY as int)) + seq![' '] + text::padded_decimal((in_day / 3600) as nat, 2)
        + seq![':'] + text::padded_decimal(((in_day % 3600) / 60) as nat, 2)
}

/// The local (UTC+8) day number of a Unix time.
pub open spec fn local_day(secs: nat) -> int {
    (secs + UTC8_OFFSET_SECS) / (SECS_PER_DAY as int)
}

/// `n` parsed as a `u64`, or `default` when it does not parse.
pub open spec fn parse_or(s: Seq<char>, default: u64) -> u64 {
    match text::parse_u64_spec(s) {
        Some(v) => v,
        None => default,
    }
}

/// The year, month and day that `date_plus_one` reads from a `Y-M-D` string
/// (2026, 1 and 1 stand in for fields that do not parse).
pub open spec fn date_fields(date: Seq<char>) -> (u64, u64, u64) {
    let parts = text::split_char(date, '-');
    (parse_or(parts[0], 2026), parse_or(parts[1], 1), parse_or(parts[2], 1))
}

/// The inputs on which `date_plus_one` returns: anything that does not split
/// into three dash-separated fields, or fields whose month is at most 13 and
/// whose day count is neither before 1970-01-01 nor past `u64::MAX`.
pub open spec fn date_plus_one_accepts(date: Seq<char>) -> bool {
    text::split_char(date, '-').len() == 3 ==> {
        let f = date_fields(date);
        &&& f.1 <= 13
        &&& days_before_year(f.0 as int) + days_before_month(f.0 as int, f.1 as int) + f.2 >= 1
        &&& days_before_year(f.0 as int) + days_before_month(f.0 as int, f.1 as int) + f.2 <= u64::MAX
    }
}

/// The date after `date`: the input itself unless it has three dash-separated
/// fields, otherwise the formatted date one day after the fields' day count.
pub open spec fn date_plus_one_spec(date: Seq<char>) -> Seq<char> {
    if text::split_char(date, '-').len() != 3 {
        date
    } else {
        let f = date_fields(date);
        format_day(date_index(f.0 as int, f.1 as int, f.2 as int) + 1)
    }
}

/// `HH:MM:SS` (UTC) of a Unix time in seconds.
pub open spec fn clock_time(secs: nat) -> Seq<char> {
    text::padded_decimal((secs % 86400) / 3600, 2) + seq![':'] + text::padded_decimal((secs % 3600) / 60, 2)
        + seq![':'] + text::padded_decimal(secs % 60, 2)
}

// ───────────────────────── lemmas ─────────────────────────

pub proof fn lemma_days_before_year_step(y: int)
    requires
        y >= 1970,
    ensures
        days_before_year(y + 1) == days_before_year(y) + days_in_year(y),
{
}

pub proof fn lemma_days_before_year_mono(a: int, b: int)
    requires
        a <= b,
    ensures
        days_before_year(a) <= days_before_year(b),
    decreases b - a,
{
    if a < b {
        lemma_days_before_year_mono(a, b - 1);
        if b > 1970 {
        }
    }
}

pub proof fn lemma_days_before_year_lower(y: int)
    requires
        y >= 1970,
    ensures
        days_before_year(y) >= 365 * (y - 1970),
    decreases y - 1970,
{
    if y > 1970 {
        lemma_days_before_year_lower(y - 1);
    }
}

pub proof fn lemma_days_before_month_full(y: int)
    ensures
        days_before_month(y, 13) == days_in_year(y),
{
    reveal_with_fuel(days_before_month, 13);
}

pub proof fn lemma_days_before_month_mono(y: int, a: int, b: int)
    requires
        a <= b,
    ensures
        days_before_month(y, a) <= days_before_month(y, b),
    decreases b - a,
{
    if a < b {
        lemma_days_before_month_mono(y, a, b - 1);
    }
}

/// Within a year, every offset below the year's length falls in exactly one month.
pub proof fn lemma_month_exists(y: int, r: int)
    requires
        0 <= r < days_in_year(y),
    ensures
        exists|m: int| 1 <= m <= 12 && #[trigger] days_before_month(y, m) <= r < days_before_month(y, m) + month_len(y, m),
{
    reveal_with_fuel(days_before_month, 13);
    if r < days_before_month(y, 2) {
        assert(1 <= 1 <= 12 && days_before_month(y, 1) <= r < days_before_month(y, 1) + month_len(y, 1));
    } else if r < days_before_month(y, 3) {
        assert(days_before_month(y, 2) <= r < days_before_month(y, 2) + month_len(y, 2));
    } else if r < days_before_month(y, 4) {
        assert(days_before_month(y, 3) <= r < days_before_month(y, 3) + month_len(y, 3));
    } else if r < days_before_month(y, 5) {
        assert(days_before_month(y, 4) <= r < days_before_month(y, 4) + month_len(y, 4));
    } else if r < days_before_month(y, 6) {
        assert(days_before_month(y, 5) <= r < days_before_month(y, 5) + month_len(y, 5));
    } else if r < days_before_month(y, 7) {
        assert(days_before_month(y, 6) <= r < days_before_month(y, 6) + month_len(y, 6));
    } else if r < days_before_month(y, 8) {
        assert(days_before_month(y, 7) <= r < days_before_month(y, 7) + month_len(y, 7));
    } else if r < days_before_month(y, 9) {
        assert(days_before_month(y, 8) <= r < days_before_month(y, 8) + month_len(y, 8));
    } else if r < days_before_month(y, 10) {
        assert(days_before_month(y, 9) <= r < days_before_month(y, 9) + month_len(y, 9));
    } else if r < days_before_month(y, 11) {
        assert(days_before_month(y, 10) <= r < days_before_month(y, 10) + month_len(y, 10));
    } else if r < days_before_month(y, 12) {
        assert(days_before_month(y, 11) <= r < days_before_month(y, 11) + month_len(y, 11));
    } else {
        assert(days_before_month(y, 12) <= r < days_before_month(y, 12) + month_len(y, 12));
    }
}

/// Every non-negative day count falls in exactly one year from `y0` on.
pub proof fn lemma_year_exists(rem: int, y0: int)
    requires
        rem >= 0,
        y0 >= 1970,
    ensures
        exists|y: int| y >= y0 && #[trigger] days_before_year(y) <= days_before_year(y0) + rem < days_before_year(y) + days_in_year(y),
    decreases rem,
{
    if rem < days_in_year(y0) {
        assert(days_before_year(y0) <= days_before_year(y0) + rem < days_before_year(y0) + days_in_year(y0));
    } else {
        lemma_year_exists(rem - days_in_year(y0), y0 + 1);
        let y = choose|y: int| y >= y0 + 1 && #[trigger] days_before_year(y) <= days_before_year(y0 + 1) + (rem - days_in_year(y0)) < days_before_year(y) + days_in_year(y);
        assert(y >= y0 && days_before_year(y) <= days_before_year(y0) + rem < days_before_year(y) + days_in_year(y));
    }
}

/// Every non-negative day count is the index of some calendar date.
pub proof fn lemma_civil_exists(n: int)
    requires
        n >= 0,
    ensures
        exists|t: (int, int, int)| is_civil_date(t.0, t.1, t.2) && date_index(t.0, t.1, t.2) == n,
{
    lemma_year_exists(n, 1970);
    let y = choose|y: int| y >= 1970 && #[trigger] days_before_year(y) <= days_before_year(1970) + n < days_before_year(y) + days_in_year(y);
    let r = n - days_before_year(y);
    lemma_month_exists(y, r);
    let m = choose|m: int| 1 <= m <= 12 && #[trigger] days_before_month(y, m) <= r < days_before_month(y, m) + month_len(y, m);
    let d = r - days_before_month(y, m) + 1;
    let t = (y, m, d);
    assert(is_civil_date(t.0, t.1, t.2) && date_index(t.0, t.1, t.2) == n);
}

/// Two calendar dates with the same day index are the same date.
pub proof fn lemma_date_index_injective(y1: int, m1: int, d1: int, y2: int, m2: int, d2: int)
    requires
        is_civil_date(y1, m1, d1),
        is_civil_date(y2, m2, d2),
        date_index(y1, m1, d1) == date_index(y2, m2, d2),
    ensures
        y1 == y2 && m1 == m2 && d1 == d2,
{
    lemma_index_bounds(y1, m1, d1);
    lemma_index_bounds(y2, m2, d2);
    if y1 < y2 {
        lemma_days_before_year_mono(y1 + 1, y2);
    } else if y2 < y1 {
        lemma_days_before_year_mono(y2 + 1, y1);
    }
    assert(y1 == y2);
    if m1 < m2 {
        lemma_days_before_month_mono(y1, m1 + 1, m2);
    } else if m2 < m1 {
        lemma_days_before_month_mono(y1, m2 + 1, m1);
    }
}

/// A date's index lies within its year and within its month.
pub proof fn lemma_index_bounds(y: int, m: int, d: int)
    requires
        is_civil_date(y, m, d),
    ensures
        days_before_year(y) <= date_index(y, m, d) < days_before_year(y + 1),
        days_before_month(y, m) + days_before_year(y) <= date_index(y, m, d)
            < days_before_month(y, m + 1) + days_before_year(y),
        date_index(y, m, d) >= 0,
{
    lemma_days_before_month_mono(y, m + 1, 13);
    lemma_days_before_month_mono(y, 0, m);
    lemma_days_before_month_full(y);
    lemma_days_before_year_step(y);
    lemma_days_before_year_mono(1970, y);
}

/// `civil_from_days` names the one calendar date whose index is `n`.
pub proof fn lemma_civil_from_days(n: int)
    requires
        n >= 0,
    ensures
        is_civil_date(civil_from_days(n).0, civil_from_days(n).1, civil_from_days(n).2),
        date_index(civil_from_days(n).0, civil_from_days(n).1, civil_from_days(n).2) == n,
{
    lemma_civil_exists(n);
}

/// Converting a day count to a date and back gives the same day count.
pub proof fn lemma_days_roundtrip(n: int)
    requires
        n >= 0,
    ensures
        ({
            let t = civil_from_days(n);
            date_index(t.0, t.1, t.2) == n
        }),
{
    lemma_civil_from_days(n);
}

/// Converting a calendar date to its day count and back gives the same date.
pub proof fn lemma_date_roundtrip(y: int, m: int, d: int)
    requires
        is_civil_date(y, m, d),
    ensures
        civil_from_days(date_index(y, m, d)) == (y, m, d),
{
    lemma_index_bounds(y, m, d);
    let n = date_index(y, m, d);
    lemma_civil_from_days(n);
    let t = civil_from_days(n);
    lemma_date_index_injective(t.0, t.1, t.2, y, m, d);
}

// ───────────────────────── executable ─────────────────────────

pub fn is_leap(y: u64) -> (r: bool)
    ensures
        r == spec_is_leap(y as int),
{
    (y % 4 == 0 && y % 100 != 0) || (y % 400 == 0)
}

fn year_length(y: u64) -> (r: u64)
    ensures
        r == days_in_year(y as int),
{
    if is_leap(y) { 366 } else { 365 }
}

fn month_length(y: u64, m: u64) -> (r: u64)
    ensures
        r == month_len(y as int, m as int),
{
    if m == 2 {
        if is_leap(y) { 29 } else { 28 }
    } else if m == 4 || m == 6 || m == 9 || m == 11 {
        30
    } else {
        31
    }
}

/// The calendar date (year, month, day) that falls `days` days after 1970-01-01.
pub fn days_to_ymd(days: u64) -> (r: (u64, u64, u64))
    ensures
        is_civil_date(r.0 as int, r.1 as int, r.2 as int),
        date_index(r.0 as int, r.1 as int, r.2 as int) == days,
        (r.0 as int, r.1 as int, r.2 as int) == civil_from_days(days as int),
{
    let mut rem: u64 = days;
    let mut y: u64 = 1970;
    loop
        invariant
            y >= 1970,
            days == days_before_year(y as int) + rem,
        ensures
            y >= 1970,
            days == days_before_year(y as int) + rem,
            rem < days_in_year(y as int),
        decreases rem,
    {
        let len: u64 = year_length(y);
        if rem < len {
            break;
        }
        proof {
            lemma_days_before_year_lower(y as int);
            lemma_days_before_year_step(y as int);
            assert(y < u64::MAX) by (nonlinear_arith)
                requires
                    days >= 365 * (y - 1970) + 365,
                    days <= u64::MAX,
            {}
        }
        rem = rem - len;
        y = y + 1;
    }
    let mut m: u64 = 1;
    proof {
        lemma_days_before_month_full(y as int);
    }
    loop
        invariant
            y >= 1970,
            1 <= m <= 13,
            days == days_before_year(y as int) + days_before_month(y as int, m as int) + rem,
            days_before_month(y as int, m as int) + rem < days_in_year(y as int),
            days_before_month(y as int, 13) == days_in_year(y as int),
        ensures
            y >= 1970,
            1 <= m <= 12,
            days == days_before_year(y as int) + days_before_month(y as int, m as int) + rem,
            rem < month_len(y as int, m as int),
        decreases 13 - m,
    {
        if m == 13 {
            proof {
                assert(false);
            }
            break;
        }
        let len: u64 = month_length(y, m);
        if rem < len {
            break;
        }
        rem = rem - len;
        m = m + 1;
    }
    proof {
        lemma_date_roundtrip(y as int, m as int, (rem + 1) as int);
    }
    (y, m, rem + 1)
}

/// The day count of year, month and day since 1970-01-01, summing whole
/// years, then whole months, then days.
///
/// Month numbers up to 13 are accepted (13 counts a whole year of months);
/// larger ones, a result that would not fit, or a day before 1970-01-01 are not.
pub fn ymd_to_days(y: u64, m: u64, d: u64) -> (r: u64)
    requires
        m <= 13,
        days_before_year(y as int) + days_before_month(y as int, m as int) + d >= 1,
        days_before_year(y as int) + days_before_month(y as int, m as int) + d <= u64::MAX,
    ensures
        r == date_index(y as int, m as int, d as int),
{
    let ghost total = days_before_year(y as int) + days_before_month(y as int, m as int) + d;
    let mut days: u64 = 0;
    let mut year: u64 = 1970;
    proof {
        lemma_days_before_month_mono(y as int, 0, m as int);
    }
    while year < y
        invariant
            year >= 1970,
            y >= 1970 ==> year <= y,
            y < 1970 ==> year == 1970,
            days == days_before_year(year as int),
            total == days_before_year(y as int) + days_before_month(y as int, m as int) + d,
            days_before_month(y as int, m as int) >= 0,
            total <= u64::MAX,
        decreases y - year,
    {
        proof {
            lemma_days_before_year_step(year as int);
            lemma_days_before_year_mono(year as int + 1, y as int);
        }
        days = days + year_length(year);
        year = year + 1;
    }
    assert(days == days_before_year(y as int));
    let mut i: u64 = 1;
    while i < m
        invariant
            1 <= i,
            m >= 1 ==> i <= m,
            m == 0 ==> i == 1,
            days == days_before_year(y as int) + days_before_month(y as int, i as int),
            total == days_before_year(y as int) + days_before_month(y as int, m as int) + d,
            total <= u64::MAX,
            m <= 13,
        decreases m - i,
    {
        proof {
            lemma_days_before_month_mono(y as int, i as int + 1, m as int);
        }
        days = days + month_length(y, i);
        i = i + 1;
    }
    proof {
        if m == 0 {
            assert(days_before_month(y as int, 0) == 0);
        }
    }
    days + d - 1
}

fn format_date_chars(y: u64, m: u64, d: u64) -> (v: Vec<char>)
    ensures
        v@ == format_date(y as nat, m as nat, d as nat),
{
    let mut v = text::padded_decimal_chars(y, 4);
    v.push('-');
    let mm = text::padded_decimal_chars(m, 2);
    text::push_all(&mut v, mm.as_slice());
    v.push('-');
    let dd = text::padded_decimal_chars(d, 2);
    text::push_all(&mut v, dd.as_slice());
    v
}

fn format_day_chars(n: u64) -> (v: Vec<char>)
    ensures
        v@ == format_day(n as int),
{
    let (y, m, d) = days_to_ymd(n);
    format_date_chars(y, m, d)
}

proof fn lemma_zero_pad_len(s: Seq<char>, w: nat)
    ensures
        text::zero_pad(s, w).len() >= w,
        text::zero_pad(s, w).len() >= s.len(),
{
}

fn local_datetime_chars(now_secs: u64) -> (v: Vec<char>)
    requires
        now_secs + UTC8_OFFSET_SECS <= u64::MAX,
    ensures
        v@ == local_datetime(now_secs as nat),
        v@.len() >= 16,
{
    let local: u64 = now_secs + UTC8_OFFSET_SECS;
    let days: u64 = local / SECS_PER_DAY;
    let in_day: u64 = local % SECS_PER_DAY;
    let hours: u64 = in_day / 3600;
    let minutes: u64 = (in_day % 3600) / 60;
    let mut v = format_day_chars(days);
    v.push(' ');
    let hh = text::padded_decimal_chars(hours, 2);
    text::push_all(&mut v, hh.as_slice());
    v.push(':');
    let mi = text::padded_decimal_chars(minutes, 2);
    text::push_all(&mut v, mi.as_slice());
    proof {
        let t = civil_from_days(days as int);
        lemma_zero_pad_len(text::decimal(t.0 as nat), 4);
        lemma_zero_pad_len(text::decimal(t.1 as nat), 2);
        lemma_zero_pad_len(text::decimal(t.2 as nat), 2);
        lemma_zero_pad_len(text::decimal(hours as nat), 2);
        lemma_zero_pad_len(text::decimal(minutes as nat), 2);
    }
    v
}

/// The local (UTC+8) date and time `YYYY-MM-DD HH:MM` of a Unix time in seconds.
pub fn chrono_now_at(now_secs: u64) -> (s: String)
    requires
        now_secs + UTC8_OFFSET_SECS <= u64::MAX,
    ensures
        s@ == local_datetime(now_secs as nat),
{
    let v = local_datetime_chars(now_secs);
    text::string_from_chars(v.as_slice())
}

fn take_chars(v: &Vec<char>, n: usize) -> (r: Vec<char>)
    requires
        n <= v@.len(),
    ensures
        r@ == v@.take(n as int),
{
    let mut r: Vec<char> = Vec::new();
    let mut i: usize = 0;
    while i < n
        invariant
            i <= n,
            n <= v@.len(),
            r@ == v@.take(i as int),
        decreases n - i,
    {
        r.push(v[i]);
        i = i + 1;
        assert(r@ =~= v@.take(i as int));
    }
    r
}

/// The local (UTC+8) date `YYYY-MM-DD` of a Unix time: the first ten
/// characters of `chrono_now`.
pub fn today_str_at(now_secs: u64) -> (s: String)
    requires
        now_secs + UTC8_OFFSET_SECS <= u64::MAX,
    ensures
        s@ == local_datetime(now_secs as nat).take(10),
{
    let v = local_datetime_chars(now_secs);
    let t = take_chars(&v, 10);
    text::string_from_chars(t.as_slice())
}

/// The local (UTC+8) date `n` days before the day of `now_secs`, never earlier
/// than 1970-01-01.
pub fn days_ago_at(n: u32, now_secs: u64) -> (s: String)
    requires
        now_secs + UTC8_OFFSET_SECS <= u64::MAX,
    ensures
        s@ == format_day(if local_day(now_secs as nat) >= n { local_day(now_secs as nat) - n } else { 0 }),
{
    let secs: u64 = now_secs + UTC8_OFFSET_SECS;
    let days: u64 = secs / SECS_PER_DAY;
    let target: u64 = days.saturating_sub(n as u64);
    let v = format_day_chars(target);
    text::string_from_chars(v.as_slice())
}

/// The date after a `YYYY-MM-DD` string.
///
/// A string that does not split into exactly three `-`-separated fields comes
/// back unchanged; a field that does not parse as a number counts as 2026 for
/// the year and 1 for the month or day.
pub fn date_plus_one(date: &str) -> (s: String)
    requires
        date_plus_one_accepts(date@),
    ensures
        s@ == date_plus_one_spec(date@),
{
    let chars = text::chars_of(date);
    let parts = text::split_chars(chars.as_slice(), '-');
    if parts.len() != 3 {
        return text::string_from_chars(chars.as_slice());
    }
    let y: u64 = match text::parse_u64(parts[0].as_slice()) {
        Some(v) => v,
        None => 2026,
    };
    let m: u64 = match text::parse_u64(parts[1].as_slice()) {
        Some(v) => v,
        None => 1,
    };
    let d: u64 = match text::parse_u64(parts[2].as_slice()) {
        Some(v) => v,
        None => 1,
    };
    assert(parts@[0]@ == text::split_char(date@, '-')[0]);
    assert(parts@[1]@ == text::split_char(date@, '-')[1]);
    assert(parts@[2]@ == text::split_char(date@, '-')[2]);
    let total: u64 = ymd_to_days(y, m, d) + 1;
    let v = format_day_chars(total);
    text::string_from_chars(v.as_slice())
}

/// The hourly bucket key `YYYY-MM-DD HH:00` (UTC+8) of a Unix time.
pub fn hour_bucket_key(now_secs: u64) -> (s: String)
    requires
        now_secs + UTC8_OFFSET_SECS <= u64::MAX,
    ensures
        s@ == local_datetime(now_secs as nat).take(13) + seq![':', '0', '0'],
{
    let v = local_datetime_chars(now_secs);
    let mut t = take_chars(&v, 13);
    t.push(':');
    t.push('0');
    t.push('0');
    text::string_from_chars(t.as_slice())
}

/// The half-open range of hourly keys that belong to `date`:
/// from `"<date> 00:00"` up to (not including) `"<next date> 00:00"`.
pub fn hourly_range(date: &str) -> (r: (String, String))
    requires
        date_plus_one_accepts(date@),
    ensures
        r.0@ == date@ + seq![' ', '0', '0', ':', '0', '0'],
        r.1@ == date_plus_one_spec(date@) + seq![' ', '0', '0', ':', '0', '0'],
{
    let suffix: [char; 6] = [' ', '0', '0', ':', '0', '0'];
    let mut from = text::chars_of(date);
    text::push_all(&mut from, &suffix);
    let next = date_plus_one(date);
    let mut to = text::chars_of(next.as_str());
    text::push_all(&mut to, &suffix);
    assert(suffix@ =~= seq![' ', '0', '0', ':', '0', '0']);
    (text::string_from_chars(from.as_slice()), text::string_from_chars(to.as_slice()))
}

/// `HH:MM:SS` (UTC) of a Unix time in seconds.
pub fn format_timestamp(secs: u64) -> (s: String)
    ensures
        s@ == clock_time(secs as nat),
{
    let hours: u64 = (secs % 86400) / 3600;
    let minutes: u64 = (secs % 3600) / 60;
    let seconds: u64 = secs % 60;
    let mut v = text::padded_decimal_chars(hours, 2);
    v.push(':');
    let mm = text::padded_decimal_chars(minutes, 2);
    text::push_all(&mut v, mm.as_slice());
    v.push(':');
    let ss = text::padded_decimal_chars(seconds, 2);
    text::push_all(&mut v, ss.as_slice());
    text::string_from_chars(v.as_slice())
}

/// The minute number (since the Unix epoch) of a time in seconds.
pub open spec fn minute_of(secs: u64) -> u64 {
    secs / 60
}

/// Whether a Unix time falls between 0:00 and 8:00 in UTC+8.
pub open spec fn night_at(secs: u64) -> bool {
    ((secs + UTC8_OFFSET_SECS) % 86400) / 3600 < 8
}

/// The minute number (since the Unix epoch) of a time in seconds.
pub fn current_minute_at(secs: u64) -> (m: u64)
    ensures
        m == minute_of(secs),
{
    secs / 60
}

/// Whether a Unix time falls between 0:00 and 8:00 in UTC+8.
pub fn is_nighttime_utc8_at(secs: u64) -> (b: bool)
    requires
        secs + UTC8_OFFSET_SECS <= u64::MAX,
    ensures
        b == night_at(secs),
{
    let local_secs: u64 = secs + UTC8_OFFSET_SECS;
    let hour: u64 = (local_secs % 86400) / 3600;
    hour < 8
}

/// A clock reading in seconds, held at `u64::MAX - UTC8_OFFSET_SECS`.
pub open spec fn clamped_clock(t: u64) -> u64 {
    if t > u64::MAX - UTC8_OFFSET_SECS { (u64::MAX - UTC8_OFFSET_SECS) as u64 } else { t }
}

/// The clock's Unix time in seconds, held where adding the UTC+8 offset
/// cannot overflow.
fn local_clock_secs() -> (s: u64)
    ensures
        s + UTC8_OFFSET_SECS <= u64::MAX,
        exists|t: u64| s == #[trigger] clamped_clock(t),
{
    let s = clock::unix_secs();
    let r = if s > u64::MAX - UTC8_OFFSET_SECS {
        u64::MAX - UTC8_OFFSET_SECS
    } else {
        s
    };
    assert(r == clamped_clock(s));
    r
}

/// The local (UTC+8) date and time `YYYY-MM-DD HH:MM` now.
pub fn chrono_now() -> (s: String)
    ensures
        exists|t: u64| t + UTC8_OFFSET_SECS <= u64::MAX && s@ == #[trigger] local_datetime(t as nat),
{
    chrono_now_at(local_clock_secs())
}

/// The local (UTC+8) date `YYYY-MM-DD` today.
pub fn today_str() -> (s: String)
    ensures
        exists|t: u64| t + UTC8_OFFSET_SECS <= u64::MAX && s@ == #[trigger] local_datetime(t as nat).take(10),
{
    today_str_at(local_clock_secs())
}

/// The local (UTC+8) date `n` days before today.
pub fn days_ago(n: u32) -> (s: String)
    ensures
        exists|t: u64| t + UTC8_OFFSET_SECS <= u64::MAX && s@ == format_day(
            if #[trigger] local_day(t as nat) >= n { local_day(t as nat) - n } else { 0 },
        ),
{
    days_ago_at(n, local_clock_secs())
}

/// Whether it is now between 0:00 and 8:00 in UTC+8.
pub fn is_nighttime_utc8() -> (b: bool)
    ensures
        exists|t: u64| t + UTC8_OFFSET_SECS <= u64::MAX && b == #[trigger] night_at(t),
{
    is_nighttime_utc8_at(local_clock_secs())
}

/// The minute number (since the Unix epoch) now.
pub fn current_minute() -> (m: u64)
    ensures
        exists|t: u64| m == #[trigger] minute_of(t),
{
    current_minute_at(clock::unix_secs())
}

/// The leap years among 1..=n (for n >= 0), counted the Gregorian way.
pub open spec fn leaps_through(n: int) -> int {
    n / 4 - n / 100 + n / 400
}

proof fn lemma_leap_count_step(n: int)
    requires
        n >= 1,
    ensures
        leaps_through(n) - leaps_through(n - 1) == if spec_is_leap(n) { 1int } else { 0int },
{
    assert(n / 4 - (n - 1) / 4 == if n % 4 == 0 { 1int } else { 0int });
    assert(n / 100 - (n - 1) / 100 == if n % 100 == 0 { 1int } else { 0int });
    assert(n / 400 - (n - 1) / 400 == if n % 400 == 0 { 1int } else { 0int });
    assert(n % 400 == 0 ==> n % 100 == 0);
    assert(n % 100 == 0 ==> n % 4 == 0);
}

/// The days before year `y` (after 1970) in closed form.
pub proof fn lemma_days_before_year_closed(y: int)
    requires
        y > 1970,
    ensures
        days_before_year(y) == 365 * (y - 1970) + leaps_through(y - 1) - 477,
    decreases y,
{
    lemma_leap_count_step(y - 1);
    if y > 1971 {
        lemma_days_before_year_closed(y - 1);
    } else {
        assert(leaps_through(1969) == 477);
        assert(days_before_year(1970) == 0);
    }
}

/// `days_before_year` without a loop over the years, in 128 bits.
fn days_before_year_wide(y: u64) -> (r: u128)
    ensures
        r == days_before_year(y as int),
        r <= 366 * (y as int),
{
    if y <= 1970 {
        return 0;
    }
    proof {
        lemma_days_before_year_closed(y as int);
        lemma_days_before_year_lower(y as int);
    }
    let n: u128 = (y - 1) as u128;
    let a: u128 = 365 * ((y - 1970) as u128) + n / 4 + n / 400;
    let b: u128 = n / 100 + 477;
    a - b
}

/// Days from the first of the year to the first of month `m` (up to 13).
fn days_before_month_exec(y: u64, m: u64) -> (r: u64)
    requires
        m <= 13,
    ensures
        r == days_before_month(y as int, m as int),
{
    let mut days: u64 = 0;
    let mut i: u64 = 1;
    proof {
        lemma_days_before_month_full(y as int);
        lemma_days_before_month_mono(y as int, m as int, 13);
    }
    while i < m
        invariant
            1 <= i,
            m >= 1 ==> i <= m,
            m == 0 ==> i == 1,
            m <= 13,
            days == days_before_month(y as int, i as int),
            days_before_month(y as int, m as int) <= 366,
        decreases m - i,
    {
        proof {
            lemma_days_before_month_mono(y as int, i as int + 1, m as int);
        }
        days = days + month_length(y, i);
        i = i + 1;
    }
    days
}

/// Whether `date_plus_one` may be called on `date` (see
/// `date_plus_one_accepts`).
pub fn date_plus_one_ok(date: &str) -> (b: bool)
    ensures
        b == date_plus_one_accepts(date@),
{
    let chars = text::chars_of(date);
    let parts = text::split_chars(chars.as_slice(), '-');
    if parts.len() != 3 {
        return true;
    }
    let y: u64 = match text::parse_u64(parts[0].as_slice()) {
        Some(v) => v,
        None => 2026,
    };
    let m: u64 = match text::parse_u64(parts[1].as_slice()) {
        Some(v) => v,
        None => 1,
    };
    let d: u64 = match text::parse_u64(parts[2].as_slice()) {
        Some(v) => v,
        None => 1,
    };
    assert(parts@[0]@ == text::split_char(date@, '-')[0]);
    assert(parts@[1]@ == text::split_char(date@, '-')[1]);
    assert(parts@[2]@ == text::split_char(date@, '-')[2]);
    if m > 13 {
        return false;
    }
    let total: u128 = days_before_year_wide(y) + (days_before_month_exec(y, m) as u128) + (d as u128);
    total >= 1 && total <= 0xffff_ffff_ffff_ffff
}

// ───────────────────────── dates sort as days ─────────────────────────

/// `s` comes before `t` in character order (how strings compare): at the
/// first position where they differ `s` has the smaller character, or `s`
/// is a proper prefix of `t`.
pub open spec fn text_before(s: Seq<char>, t: Seq<char>) -> bool {
    exists|i: int|
        0 <= i <= s.len() && i <= t.len() && #[trigger] s.take(i) == t.take(i) && ((i < s.len() && i < t.len()
            && (s[i] as int) < (t[i] as int)) || (i == s.len() && i < t.len()))
}

proof fn lemma_before_at(s: Seq<char>, t: Seq<char>, i: int)
    requires
        0 <= i < s.len(),
        i < t.len(),
        forall|j: int| 0 <= j < i ==> s[j] == t[j],
        (s[i] as int) < (t[i] as int),
    ensures
        text_before(s, t),
{
    assert(s.take(i) =~= t.take(i));
}

proof fn lemma_before_concat(s1: Seq<char>, s2: Seq<char>, t1: Seq<char>, t2: Seq<char>)
    requires
        s1.len() == t1.len(),
        text_before(s1, t1) || (s1 == t1 && text_before(s2, t2)),
        s2.len() > 0 && t2.len() > 0 || s1 != t1,
    ensures
        text_before(s1 + s2, t1 + t2),
{
    let s = s1 + s2;
    let t = t1 + t2;
    if text_before(s1, t1) {
        let i = choose|i: int|
            0 <= i <= s1.len() && i <= t1.len() && #[trigger] s1.take(i) == t1.take(i) && ((i < s1.len() && i
                < t1.len() && (s1[i] as int) < (t1[i] as int)) || (i == s1.len() && i < t1.len()));
        assert(i < s1.len());
        assert forall|j: int| 0 <= j < i implies s[j] == t[j] by {
            assert(s1.take(i)[j] == t1.take(i)[j]);
        }
        lemma_before_at(s, t, i);
    } else {
        let i = choose|i: int|
            0 <= i <= s2.len() && i <= t2.len() && #[trigger] s2.take(i) == t2.take(i) && ((i < s2.len() && i
                < t2.len() && (s2[i] as int) < (t2[i] as int)) || (i == s2.len() && i < t2.len()));
        let k = s1.len() + i;
        assert(s.take(k) =~= t.take(k)) by {
            assert forall|j: int| 0 <= j < k implies s[j] == t[j] by {
                if j >= s1.len() {
                    assert(s2.take(i)[j - s1.len()] == t2.take(i)[j - s1.len()]);
                }
            }
        }
    }
}

proof fn lemma_pad4(x: nat)
    requires
        1000 <= x <= 9999,
    ensures
        text::padded_decimal(x, 4) == seq![
            text::digit_char((x / 1000) as int),
            text::digit_char(((x / 100) % 10) as int),
            text::digit_char(((x / 10) % 10) as int),
            text::digit_char((x % 10) as int),
        ],
{
    let x1 = x / 10;
    let x2 = x / 100;
    let x3 = x / 1000;
    assert(x1 / 10 == x2);
    assert(x2 / 10 == x3);
    assert(text::decimal(x3) == seq![text::digit_char(x3 as int)]);
    assert(text::decimal(x2) == text::decimal(x3).push(text::digit_char((x2 % 10) as int)));
    assert(text::decimal(x1) == text::decimal(x2).push(text::digit_char((x1 % 10) as int)));
    assert(text::decimal(x) == text::decimal(x1).push(text::digit_char((x % 10) as int)));
    assert(text::decimal(x) =~= seq![
        text::digit_char((x / 1000) as int),
        text::digit_char(((x / 100) % 10) as int),
        text::digit_char(((x / 10) % 10) as int),
        text::digit_char((x % 10) as int),
    ]);
}

proof fn lemma_pad2(x: nat)
    requires
        1 <= x <= 99,
    ensures
        text::padded_decimal(x, 2) == seq![text::digit_char((x / 10) as int), text::digit_char((x % 10) as int)],
{
    if x < 10 {
        assert(text::decimal(x) == seq![text::digit_char(x as int)]);
        assert(text::digit_char(0) == '0');
        assert(text::padded_decimal(x, 2) =~= seq!['0', text::digit_char(x as int)]);
    } else {
        let x1 = x / 10;
        assert(text::decimal(x1) == seq![text::digit_char(x1 as int)]);
        assert(text::decimal(x) == text::decimal(x1).push(text::digit_char((x % 10) as int)));
        assert(text::decimal(x) =~= seq![text::digit_char((x / 10) as int), text::digit_char((x % 10) as int)]);
    }
}

proof fn lemma_digit_order(a: int, b: int)
    requires
        0 <= a <= 9,
        0 <= b <= 9,
    ensures
        (a < b) == ((text::digit_char(a) as int) < (text::digit_char(b) as int)),
        (a == b) == (text::digit_char(a) == text::digit_char(b)),
{
}

proof fn lemma_pad4_order(x: nat, y: nat)
    requires
        1000 <= x < y <= 9999,
    ensures
        text_before(text::padded_decimal(x, 4), text::padded_decimal(y, 4)),
{
    lemma_pad4(x);
    lemma_pad4(y);
    let s = text::padded_decimal(x, 4);
    let t = text::padded_decimal(y, 4);
    lemma_digit_order((x / 1000) as int, (y / 1000) as int);
    lemma_digit_order(((x / 100) % 10) as int, ((y / 100) % 10) as int);
    lemma_digit_order(((x / 10) % 10) as int, ((y / 10) % 10) as int);
    lemma_digit_order((x % 10) as int, (y % 10) as int);
    assert(x / 100 == 10 * (x / 1000) + (x / 100) % 10);
    assert(y / 100 == 10 * (y / 1000) + (y / 100) % 10);
    assert(x / 10 == 10 * (x / 100) + (x / 10) % 10);
    assert(y / 10 == 10 * (y / 100) + (y / 10) % 10);
    assert(x == 10 * (x / 10) + x % 10);
    assert(y == 10 * (y / 10) + y % 10);
    assert(x / 10 <= y / 10);
    assert(x / 100 <= y / 100);
    assert(x / 1000 <= y / 1000);
    if x / 1000 < y / 1000 {
        lemma_before_at(s, t, 0);
    } else if x / 100 < y / 100 {
        lemma_before_at(s, t, 1);
    } else if x / 10 < y / 10 {
        lemma_before_at(s, t, 2);
    } else {
        lemma_before_at(s, t, 3);
    }
}

proof fn lemma_pad2_order(x: nat, y: nat)
    requires
        1 <= x < y <= 99,
    ensures
        text_before(text::padded_decimal(x, 2), text::padded_decimal(y, 2)),
{
    lemma_pad2(x);
    lemma_pad2(y);
    let s = text::padded_decimal(x, 2);
    let t = text::padded_decimal(y, 2);
    lemma_digit_order((x / 10) as int, (y / 10) as int);
    lemma_digit_order((x % 10) as int, (y % 10) as int);
    if x / 10 != y / 10 {
        lemma_before_at(s, t, 0);
    } else {
        lemma_before_at(s, t, 1);
    }
}

proof fn lemma_format_date_split(y: nat, m: nat, d: nat)
    ensures
        format_date(y, m, d) == text::padded_decimal(y, 4) + (seq!['-'] + text::padded_decimal(m, 2) + seq!['-']
            + text::padded_decimal(d, 2)),
        format_date(y, m, d) == (text::padded_decimal(y, 4) + seq!['-']) + (text::padded_decimal(m, 2) + (seq!['-']
            + text::padded_decimal(d, 2))),
{
    let ys = text::padded_decimal(y, 4);
    let ms = text::padded_decimal(m, 2);
    let ds = text::padded_decimal(d, 2);
    let dash = seq!['-'];
    assert(format_date(y, m, d) =~= ys + (dash + ms + dash + ds));
    assert(format_date(y, m, d) =~= (ys + dash) + (ms + (dash + ds)));
}

proof fn lemma_format_date_order_year(y1: nat, m1: nat, d1: nat, y2: nat, m2: nat, d2: nat)
    requires
        1000 <= y1 < y2 <= 9999,
        1 <= m1 <= 12,
        1 <= m2 <= 12,
        1 <= d1 <= 31,
        1 <= d2 <= 31,
    ensures
        text_before(format_date(y1, m1, d1), format_date(y2, m2, d2)),
{
    let dash = seq!['-'];
    lemma_pad4(y1);
    lemma_pad4(y2);
    lemma_pad4_order(y1, y2);
    lemma_format_date_split(y1, m1, d1);
    lemma_format_date_split(y2, m2, d2);
    lemma_before_concat(
        text::padded_decimal(y1, 4),
        dash + text::padded_decimal(m1, 2) + dash + text::padded_decimal(d1, 2),
        text::padded_decimal(y2, 4),
        dash + text::padded_decimal(m2, 2) + dash + text::padded_decimal(d2, 2),
    );
}

proof fn lemma_format_date_order_month(y: nat, m1: nat, d1: nat, m2: nat, d2: nat)
    requires
        1000 <= y <= 9999,
        1 <= m1 < m2 <= 12,
        1 <= d1 <= 31,
        1 <= d2 <= 31,
    ensures
        text_before(format_date(y, m1, d1), format_date(y, m2, d2)),
{
    let dash = seq!['-'];
    let ys = text::padded_decimal(y, 4);
    lemma_pad2(m1);
    lemma_pad2(m2);
    lemma_pad2(d1);
    lemma_pad2(d2);
    lemma_pad2_order(m1, m2);
    let t1 = dash + text::padded_decimal(d1, 2);
    let t2 = dash + text::padded_decimal(d2, 2);
    lemma_before_concat(text::padded_decimal(m1, 2), t1, text::padded_decimal(m2, 2), t2);
    lemma_format_date_split(y, m1, d1);
    lemma_format_date_split(y, m2, d2);
    lemma_before_concat(ys + dash, text::padded_decimal(m1, 2) + t1, ys + dash, text::padded_decimal(m2, 2) + t2);
}

proof fn lemma_format_date_order_day(y: nat, m: nat, d1: nat, d2: nat)
    requires
        1 <= d1 < d2 <= 31,
    ensures
        text_before(format_date(y, m, d1), format_date(y, m, d2)),
{
    lemma_pad2(d1);
    lemma_pad2(d2);
    lemma_pad2_order(d1, d2);
    let prefix = text::padded_decimal(y, 4) + seq!['-'] + text::padded_decimal(m, 2) + seq!['-'];
    lemma_before_concat(prefix, text::padded_decimal(d1, 2), prefix, text::padded_decimal(d2, 2));
}

/// An earlier calendar date (in year, month, day order) formats to text that
/// comes first, for four-digit years.
proof fn lemma_format_date_order(y1: nat, m1: nat, d1: nat, y2: nat, m2: nat, d2: nat)
    requires
        1000 <= y1 <= 9999,
        1000 <= y2 <= 9999,
        1 <= m1 <= 12,
        1 <= m2 <= 12,
        1 <= d1 <= 31,
        1 <= d2 <= 31,
        y1 < y2 || (y1 == y2 && m1 < m2) || (y1 == y2 && m1 == m2 && d1 < d2),
    ensures
        text_before(format_date(y1, m1, d1), format_date(y2, m2, d2)),
{
    if y1 < y2 {
        lemma_format_date_order_year(y1, m1, d1, y2, m2, d2);
    } else if m1 < m2 {
        lemma_format_date_order_month(y1, m1, d1, m2, d2);
    } else {
        lemma_format_date_order_day(y1, m1, d1, d2);
    }
}

/// Formatted dates sort as the days they name: of two days up to the end of
/// year 9999, the earlier one's `YYYY-MM-DD` comes first in character order
/// (so comparing the text of two dates compares the dates).
pub proof fn lemma_format_day_ordered(a: int, b: int)
    requires
        0 <= a < b,
        civil_from_days(b).0 <= 9999,
    ensures
        text_before(format_day(a), format_day(b)),
{
    lemma_civil_from_days(a);
    lemma_civil_from_days(b);
    let (y1, m1, d1) = civil_from_days(a);
    let (y2, m2, d2) = civil_from_days(b);
    lemma_index_bounds(y1, m1, d1);
    lemma_index_bounds(y2, m2, d2);
    if y1 > y2 {
        lemma_days_before_year_mono(y2 + 1, y1);
    }
    assert(y1 <= y2);
    if y1 == y2 && m1 > m2 {
        lemma_days_before_month_mono(y1, m2 + 1, m1);
    }
    assert(y1 < y2 || m1 <= m2);
    assert(month_len(y1, m1) <= 31);
    assert(month_len(y2, m2) <= 31);
    lemma_format_date_order(y1 as nat, m1 as nat, d1 as nat, y2 as nat, m2 as nat, d2 as nat);
}

/// A day up to the end of year 9999 formats to exactly ten characters.
pub proof fn lemma_format_day_len(n: int)
    requires
        n >= 0,
        civil_from_days(n).0 <= 9999,
    ensures
        format_day(n).len() == 10,
{
    lemma_civil_from_days(n);
    let (y, m, d) = civil_from_days(n);
    assert(month_len(y, m) <= 31);
    lemma_pad4(y as nat);
    lemma_pad2(m as nat);
    lemma_pad2(d as nat);
}

/// Yesterday's date comes before today's (UTC+8) in character order, as the
/// daily statistics' date ranges rely on.
pub proof fn lemma_yesterday_before_today(t: nat)
    requires
        local_day(t) >= 1,
        civil_from_days(local_day(t)).0 <= 9999,
    ensures
        text_before(format_day(local_day(t) - 1), local_datetime(t).take(10)),
{
    let n = local_day(t);
    lemma_format_day_len(n);
    lemma_format_day_ordered(n - 1, n);
    let rest = seq![' '] + text::padded_decimal((((t + UTC8_OFFSET_SECS) % (SECS_PER_DAY as int)) / 3600) as nat, 2)
        + seq![':'] + text::padded_decimal(((((t + UTC8_OFFSET_SECS) % (SECS_PER_DAY as int)) % 3600) / 60) as nat, 2);
    assert(local_datetime(t) =~= format_day(n) + rest);
    assert(local_datetime(t).take(10) =~= format_day(n));
}

} // verus!
