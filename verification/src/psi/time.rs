//! Dates, times of day and durations as tables carry them.

use chrono::{DateTime, Datelike, Offset, Timelike};
use chrono_tz::Tz;
use vstd::arithmetic::div_mod::lemma_fundamental_div_mod_converse;
use vstd::prelude::*;

verus! {

/// An instant: whole seconds since the start of 1970 in UTC and the
/// nanoseconds that follow. A leap second counts its nanoseconds on above one
/// second.
#[derive(Clone, Copy, Debug, PartialEq, Eq, Structural)]
pub struct UtcTime {
    pub secs: i64,
    pub nanos: u32,
}

/// The seconds of the first day of the calendar, in the year -262143.
pub const MIN_SECS: i64 = -8_334_601_228_800;

/// The last second of the calendar, in the year 262142.
pub const MAX_SECS: i64 = 8_210_266_876_799;

impl UtcTime {
    /// Whether the calendar has a date for the instant.
    pub open spec fn wf(&self) -> bool {
        MIN_SECS <= self.secs <= MAX_SECS && self.nanos < 2_000_000_000
    }

    /// Whether `self` comes before `other`.
    pub open spec fn earlier(&self, other: &UtcTime) -> bool {
        self.secs < other.secs || (self.secs == other.secs && self.nanos < other.nanos)
    }

    /// Whether `self` comes before `other`.
    pub fn is_before(&self, other: &UtcTime) -> (r: bool)
        ensures
            r == self.earlier(other),
    {
        self.secs < other.secs || (self.secs == other.secs && self.nanos < other.nanos)
    }
}

/// A date and a time of day.
pub struct Civil {
    pub year: i32,
    pub month: u32,
    pub day: u32,
    pub hour: u32,
    pub minute: u32,
    pub second: u32,
}

/// Years that begin in March, so that a leap day ends them: the year.
pub open spec fn march_year(year: int, month: int) -> int {
    if month <= 2 {
        year - 1
    } else {
        year
    }
}

/// The number of a month, January and February counted as 13 and 14.
pub open spec fn march_month(month: int) -> int {
    if month <= 2 {
        month + 12
    } else {
        month
    }
}

/// The days from the first of March of year 0 to the first of March of a year.
pub open spec fn march_year_days(y: int) -> int {
    365 * y + y / 4 - y / 100 + y / 400
}

/// The days from the start of 1970 to a date of the Gregorian calendar.
pub open spec fn day_number(year: int, month: int, day: int) -> int {
    march_year_days(march_year(year, month)) + (153 * (march_month(month) - 3) + 2) / 5 + day - 1
        - 719468
}

/// Whether the Gregorian calendar has this date.
pub open spec fn is_date(year: int, month: int, day: int) -> bool {
    &&& 1 <= month <= 12
    &&& 1 <= day <= if month == 2 {
        if year % 4 == 0 && (year % 100 != 0 || year % 400 == 0) {
            29int
        } else {
            28
        }
    } else if month == 4 || month == 6 || month == 9 || month == 11 {
        30
    } else {
        31
    }
}

/// `DateTime::from_timestamp` and the fields of the instant that it makes: the
/// date that has the day's number, and the time of the day.
#[verifier::external_body]
fn civil_of(secs: i64) -> (r: Civil)
    requires
        MIN_SECS <= secs <= MAX_SECS,
    ensures
        is_date(r.year as int, r.month as int, r.day as int),
        day_number(r.year as int, r.month as int, r.day as int) == secs as int / 86400,
        r.hour == (secs as int % 86400) / 3600,
        r.minute == (secs as int % 3600) / 60,
        r.second == secs as int % 60,
{
    let t = DateTime::from_timestamp(secs, 0).unwrap();
    Civil {
        year: t.year(),
        month: t.month(),
        day: t.day(),
        hour: t.hour(),
        minute: t.minute(),
        second: t.second(),
    }
}

/// The offset from UTC, in seconds, that a named time zone has at an instant.
pub uninterp spec fn zone_offset_of(timezone: Seq<char>, secs: i64) -> Option<i32>;

/// `Tz::from_str` and the offset of that zone at an instant, less than a day
/// either way. There is none for a name that is not in the zone database.
#[verifier::external_body]
pub(crate) fn zone_offset(timezone: &str, secs: i64) -> (r: Option<i32>)
    requires
        MIN_SECS <= secs <= MAX_SECS,
    ensures
        r == zone_offset_of(timezone@, secs),
        r matches Some(offset) ==> -86400 < offset < 86400,
{
    let tz: Tz = timezone.parse().ok()?;
    let local = DateTime::from_timestamp(secs, 0)?.with_timezone(&tz);
    Some(local.offset().fix().local_minus_utc())
}

/// A number below 100 as two decimal digits of four bits.
pub open spec fn bcd_of(v: int) -> u8 {
    (((v / 10) % 16) * 16 + v % 10) as u8
}

/// A quotient rounded towards zero.
pub open spec fn truncated(a: int, b: int) -> int {
    if a >= 0 {
        a / b
    } else {
        -((-a) / b)
    }
}

/// The modified Julian day of a date, by the common formula for the Julian day
/// with its century rule rounded towards zero.
pub open spec fn mjd_of(year: int, month: int, day: int) -> int {
    let y = march_year(year, month);
    let a = truncated(y, 100);
    let jd = (1461 * (y + 4716)) / 4 + (306001 * (march_month(month) + 1)) / 10000 + day + 2 - a
        + truncated(a, 4) - 1524;
    (jd - 2_400_001) % 65536
}

/// Day and time of day in five bytes.
pub open spec fn time_field(mjd: int, secs: int) -> Seq<u8> {
    seq![
        (mjd / 256) as u8,
        (mjd % 256) as u8,
        bcd_of((secs % 86400) / 3600),
        bcd_of((secs % 3600) / 60),
        bcd_of(secs % 60),
    ]
}

/// The five bytes of an instant.
pub open spec fn dvb_time_of(secs: int) -> Seq<u8> {
    time_field((40587 + secs / 86400) % 65536, secs)
}

/// Whether five bytes are those of the instant, by the date that it falls on.
pub open spec fn is_dvb_time(bytes: Seq<u8>, secs: int) -> bool {
    exists|year: int, month: int, day: int|
        #![trigger mjd_of(year, month, day)]
        is_date(year, month, day) && day_number(year, month, day) == secs / 86400 && bytes
            == time_field(mjd_of(year, month, day), secs)
}

/// The five bytes of an instant, by the date that it falls on.
pub open spec fn dvb_time_bytes(secs: int) -> Seq<u8> {
    choose|bytes: Seq<u8>| is_dvb_time(bytes, secs)
}

/// Two decimal digits of four bits each.
pub(crate) fn bcd(value: u8) -> (r: u8)
    ensures
        r == bcd_of(value as int),
{
    ((value / 10) % 16) * 16 + value % 10
}

/// The more significant byte.
pub fn high(value: u16) -> (r: u8)
    ensures
        r == value / 256,
{
    (value / 256) as u8
}

/// The less significant byte.
pub fn low(value: u16) -> (r: u8)
    ensures
        r == value % 256,
{
    (value % 256) as u8
}

/// A quotient rounded towards zero.
pub fn truncating_div(a: i64, b: i64) -> (r: i64)
    requires
        b > 0,
        a > i64::MIN,
    ensures
        r == truncated(a as int, b as int),
{
    if a >= 0 {
        a / b
    } else {
        let q: i64 = (-a) / b;
        assert(q >= 0) by (nonlinear_arith)
            requires
                q == (-a) / b as int,
                a < 0,
                b > 0,
        ;
        -q
    }
}

proof fn lemma_mjd_shifts(n: int, x: int)
    ensures
        (1461 * (n + 400_000)) / 4 - 146_100_000 == (1461 * n) / 4,
        (x + 65536 * 4096) % 65536 == x % 65536,
{
}

proof fn lemma_centuries(y: int)
    requires
        -262145 <= y <= 262143,
    ensures
        -2700 < truncated(y, 100) < 2700,
        -700 < truncated(truncated(y, 100), 4) < 700,
{
}

/// The modified Julian day of a date, modulo 2^16.
fn mjd(year: i32, month: u32, day: u32) -> (r: u16)
    requires
        is_date(year as int, month as int, day as int),
        -262144 <= year <= 262143,
    ensures
        r == mjd_of(year as int, month as int, day as int),
{
    let y: i64 = if month <= 2 {
        year as i64 - 1
    } else {
        year as i64
    };
    let m: i64 = if month <= 2 {
        month as i64 + 12
    } else {
        month as i64
    };
    let a = truncating_div(y, 100);
    let c = truncating_div(a, 4);
    // A multiple of four years keeps the dividend positive.
    let years: i64 = (1461 * (y + 4716 + 400_000)) / 4 - 146_100_000;
    let months: i64 = (306001 * (m + 1)) / 10000;
    proof {
        lemma_centuries(y as int);
    }
    assert(years == (1461 * (y + 4716)) / 4) by {
        lemma_mjd_shifts(y + 4716, 0);
    }
    let day_of: i64 = years + months + day as i64 + 2 - a + c - 1524 - 2_400_001;
    proof {
        lemma_mjd_shifts(0, day_of as int);
    }
    // A multiple of 2^16 does the same for the remainder.
    ((day_of + 65536 * 4096) % 65536) as u16
}

/// The five bytes that carry an instant: the modified Julian day and the time
/// of day in decimal digits. From the year 0 on the day is that of the
/// calendar.
pub fn encode_dvb_time(dt: &UtcTime) -> (r: [u8; 5])
    requires
        dt.wf(),
    ensures
        r@ == dvb_time_bytes(dt.secs as int),
        is_dvb_time(r@, dt.secs as int),
        dt.secs >= -62_162_035_200 ==> r@ == dvb_time_of(dt.secs as int),
{
    let c = civil_of(dt.secs);
    let ghost date_mjd = mjd_of(c.year as int, c.month as int, c.day as int);
    proof {
        lemma_instant_date(c.year as int, c.month as int, c.day as int, dt.secs as int);
        lemma_time_of_day(dt.secs as int);
    }
    let day = mjd(c.year, c.month, c.day);
    let r = [high(day), low(day), bcd(c.hour as u8), bcd(c.minute as u8), bcd(c.second as u8)];
    assert(r@ =~= time_field(date_mjd, dt.secs as int));
    proof {
        law_dvb_time_unique(r@, dvb_time_bytes(dt.secs as int), dt.secs as int);
    }
    r
}

/// The day of a year that begins in March.
spec fn march_day(month: int, day: int) -> int {
    (153 * (march_month(month) - 3) + 2) / 5 + day - 1
}

spec fn is_leap(year: int) -> bool {
    year % 4 == 0 && (year % 100 != 0 || year % 400 == 0)
}

proof fn lemma_step_4(n: int)
    ensures
        n / 4 - (n - 1) / 4 == if n % 4 == 0 {
            1int
        } else {
            0
        },
{
}

proof fn lemma_step_100(n: int)
    ensures
        n / 100 - (n - 1) / 100 == if n % 100 == 0 {
            1int
        } else {
            0
        },
        n % 100 == 0 ==> n % 4 == 0,
{
}

proof fn lemma_step_400(n: int)
    ensures
        n / 400 - (n - 1) / 400 == if n % 400 == 0 {
            1int
        } else {
            0
        },
        n % 400 == 0 ==> n % 100 == 0,
{
}

proof fn lemma_march_year_len(y: int)
    ensures
        march_year_days(y + 1) - march_year_days(y) == if is_leap(y + 1) {
            366int
        } else {
            365
        },
{
    lemma_step_4(y + 1);
    lemma_step_100(y + 1);
    lemma_step_400(y + 1);
    assert((y + 1) - 1 == y);
}

proof fn lemma_march_years_increase(a: int, b: int)
    requires
        a < b,
    ensures
        march_year_days(a + 1) <= march_year_days(b),
    decreases b - a,
{
    if a + 1 < b {
        lemma_march_year_len(b - 1);
        lemma_march_years_increase(a, b - 1);
    }
}

/// A date lies within its year.
proof fn lemma_date_in_year(year: int, month: int, day: int)
    requires
        is_date(year, month, day),
    ensures
        0 <= march_day(month, day),
        march_year_days(march_year(year, month)) + march_day(month, day) < march_year_days(
            march_year(year, month) + 1,
        ),
{
    lemma_march_year_len(march_year(year, month));
    let m = march_month(month);
    assert(m == 3 || m == 4 || m == 5 || m == 6 || m == 7 || m == 8 || m == 9 || m == 10 || m == 11
        || m == 12 || m == 13 || m == 14);
}

/// Within a year the day tells the month.
proof fn lemma_march_day_tells(y: int, m1: int, d1: int, m2: int, d2: int)
    requires
        is_date(
            if m1 <= 2 {
                y + 1
            } else {
                y
            },
            m1,
            d1,
        ),
        is_date(
            if m2 <= 2 {
                y + 1
            } else {
                y
            },
            m2,
            d2,
        ),
        march_day(m1, d1) == march_day(m2, d2),
    ensures
        m1 == m2,
        d1 == d2,
{
    let a = march_month(m1);
    let b = march_month(m2);
    assert(a == 3 || a == 4 || a == 5 || a == 6 || a == 7 || a == 8 || a == 9 || a == 10 || a == 11
        || a == 12 || a == 13 || a == 14);
    assert(b == 3 || b == 4 || b == 5 || b == 6 || b == 7 || b == 8 || b == 9 || b == 10 || b == 11
        || b == 12 || b == 13 || b == 14);
}

/// The number of a day tells its date.
pub proof fn law_day_number_tells_date(y1: int, m1: int, d1: int, y2: int, m2: int, d2: int)
    requires
        is_date(y1, m1, d1),
        is_date(y2, m2, d2),
        day_number(y1, m1, d1) == day_number(y2, m2, d2),
    ensures
        y1 == y2,
        m1 == m2,
        d1 == d2,
{
    let a = march_year(y1, m1);
    let b = march_year(y2, m2);
    lemma_date_in_year(y1, m1, d1);
    lemma_date_in_year(y2, m2, d2);
    if a < b {
        lemma_march_years_increase(a, b);
    }
    if b < a {
        lemma_march_years_increase(b, a);
    }
    assert(a == b);
    lemma_march_day_tells(a, m1, d1, m2, d2);
}

/// An instant has one form in five bytes.
pub proof fn law_dvb_time_unique(a: Seq<u8>, b: Seq<u8>, secs: int)
    requires
        is_dvb_time(a, secs),
        is_dvb_time(b, secs),
    ensures
        a == b,
{
    let (y1, m1, d1) = choose|year: int, month: int, day: int|
        #![trigger mjd_of(year, month, day)]
        is_date(year, month, day) && day_number(year, month, day) == secs / 86400 && a
            == time_field(mjd_of(year, month, day), secs);
    let (y2, m2, d2) = choose|year: int, month: int, day: int|
        #![trigger mjd_of(year, month, day)]
        is_date(year, month, day) && day_number(year, month, day) == secs / 86400 && b
            == time_field(mjd_of(year, month, day), secs);
    law_day_number_tells_date(y1, m1, d1, y2, m2, d2);
}

proof fn lemma_time_of_day(secs: int)
    ensures
        0 <= (secs % 86400) / 3600 < 24,
        0 <= (secs % 3600) / 60 < 60,
        0 <= secs % 60 < 60,
{
}

/// What is known of the date that an instant falls on.
proof fn lemma_instant_date(year: int, month: int, day: int, secs: int)
    requires
        is_date(year, month, day),
        day_number(year, month, day) == secs / 86400,
        MIN_SECS <= secs <= MAX_SECS,
    ensures
        -262144 <= year <= 262143,
        0 <= mjd_of(year, month, day) < 65536,
        secs >= -62_162_035_200 ==> mjd_of(year, month, day) == (40587 + secs / 86400) % 65536,
{
    let days = secs / 86400;
    assert(-96_465_292 <= days <= 95_026_237);
    lemma_year_range(year, month, day, days);
    if secs >= -62_162_035_200 {
        assert(days >= -719468);
        lemma_year_not_negative(year, month, day);
        law_mjd_is_day_number(year, month, day);
    }
}

/// The calendar's range of years.
proof fn lemma_year_range(year: int, month: int, day: int, days: int)
    requires
        is_date(year, month, day),
        day_number(year, month, day) == days,
        -96_465_292 <= days <= 95_026_237,
    ensures
        -262144 <= year <= 262143,
{
    let y = march_year(year, month);
    assert(0 <= (153 * (march_month(month) - 3) + 2) / 5 <= 337);
    assert(y >= 262143 ==> march_year_days(y) >= 95_746_000);
    assert(y <= -262144 - 1 ==> march_year_days(y) <= -95_746_000);
}

proof fn lemma_year_not_negative(year: int, month: int, day: int)
    requires
        is_date(year, month, day),
        day_number(year, month, day) >= -719468,
    ensures
        march_year(year, month) >= 0,
{
    let y = march_year(year, month);
    assert((153 * (march_month(month) - 3) + 2) / 5 + day <= 366);
    assert(y <= -1 ==> march_year_days(y) <= -366);
}

/// The modified Julian day of a date is the number of the day, counted from the
/// 17th of November 1858, modulo 2^16; before the year 0 this does not hold of
/// the years that begin in March of a century that is no multiple of 400.
pub proof fn law_mjd_is_day_number(year: int, month: int, day: int)
    requires
        is_date(year, month, day),
        march_year(year, month) < 0 && march_year(year, month) % 100 == 0 ==> march_year(
            year,
            month,
        ) % 400 == 0,
    ensures
        mjd_of(year, month, day) == (40587 + day_number(year, month, day)) % 65536,
{
    let y = march_year(year, month);
    let m = march_month(month);
    assert((306001 * (m + 1)) / 10000 == (153 * (m - 3) + 2) / 5 + 122) by {
        assert(m == 3 || m == 4 || m == 5 || m == 6 || m == 7 || m == 8 || m == 9 || m == 10 || m
            == 11 || m == 12 || m == 13 || m == 14);
    }
    let a = truncated(y, 100);
    assert((1461 * (y + 4716)) / 4 == 365 * y + y / 4 + 1_722_519);
    assert(-a + truncated(a, 4) == -(y / 100) + y / 400);
}

/// Hours (at most 99), minutes and seconds in decimal digits.
pub open spec fn duration_field(seconds: int) -> Seq<u8> {
    let h = seconds / 3600;
    seq![
        bcd_of(if h < 99 {
            h
        } else {
            99
        }),
        bcd_of((seconds % 3600) / 60),
        bcd_of(seconds % 60),
    ]
}

/// The three bytes that carry a duration.
pub fn encode_duration(seconds: u32) -> (r: [u8; 3])
    ensures
        r@ == duration_field(seconds as int),
{
    let hours: u32 = seconds / 3600;
    let h: u8 = if hours < 99 {
        hours as u8
    } else {
        99
    };
    let m: u8 = ((seconds % 3600) / 60) as u8;
    let s: u8 = (seconds % 60) as u8;
    let r = [bcd(h), bcd(m), bcd(s)];
    assert(r@ =~= duration_field(seconds as int));
    r
}

/// The number that two decimal digits of four bits stand for.
pub open spec fn bcd_value(b: u8) -> int {
    (b as int / 16) * 10 + b as int % 16
}

/// Decimal digits give the number back, and so the three bytes of a duration
/// below 100 hours give its seconds back.
pub proof fn law_duration_digits(seconds: int)
    requires
        0 <= seconds < 360_000,
    ensures
        bcd_value(duration_field(seconds)[0]) * 3600 + bcd_value(duration_field(seconds)[1]) * 60
            + bcd_value(duration_field(seconds)[2]) == seconds,
{
    let f = duration_field(seconds);
    assert(bcd_value(f[0]) == seconds / 3600);
    assert(bcd_value(f[1]) == (seconds % 3600) / 60);
    assert(bcd_value(f[2]) == seconds % 60);
}

/// An offset from UTC as hours and minutes, without its sign.
pub open spec fn offset_field(offset_seconds: int) -> Seq<u8> {
    let minutes = (if offset_seconds >= 0 {
        offset_seconds
    } else {
        -offset_seconds
    }) / 60;
    seq![bcd_of(minutes / 60), bcd_of(minutes % 60)]
}

/// Hours and minutes of an offset from UTC, without its sign.
pub fn offset_bcd(offset_seconds: i32) -> (r: [u8; 2])
    requires
        -86400 < offset_seconds < 86400,
    ensures
        r@ == offset_field(offset_seconds as int),
{
    let size: i32 = if offset_seconds >= 0 {
        offset_seconds
    } else {
        -offset_seconds
    };
    let minutes: i32 = size / 60;
    let r = [bcd((minutes / 60) as u8), bcd((minutes % 60) as u8)];
    assert(r@ =~= offset_field(offset_seconds as int));
    r
}

/// Hours and minutes of the offset that a named time zone has at an instant;
/// none for a name that is not in the zone database.
pub fn get_local_offset_bcd(timezone: &str, clock: &UtcTime) -> (r: Option<[u8; 2]>)
    requires
        clock.wf(),
    ensures
        r is Some == zone_offset_of(timezone@, clock.secs) is Some,
        r matches Some(b) ==> b@ == offset_field(zone_offset_of(timezone@, clock.secs)->0 as int),
{
    match zone_offset(timezone, clock.secs) {
        Some(offset) => Some(offset_bcd(offset)),
        None => None,
    }
}

// ---- Every day has a date ----

proof fn lemma_next_day(year: int, month: int, day: int) -> (next: (int, int, int))
    requires
        is_date(year, month, day),
    ensures
        is_date(next.0, next.1, next.2),
        day_number(next.0, next.1, next.2) == day_number(year, month, day) + 1,
{
    assert(month == 1 || month == 2 || month == 3 || month == 4 || month == 5 || month == 6
        || month == 7 || month == 8 || month == 9 || month == 10 || month == 11 || month == 12);
    if is_date(year, month, day + 1) {
        (year, month, day + 1)
    } else if month == 12 {
        (year + 1, 1, 1)
    } else if month == 2 {
        let y = year;
        lemma_step_4(y);
        lemma_step_100(y);
        lemma_step_400(y);
        (year, 3, 1)
    } else {
        (year, month + 1, 1)
    }
}

proof fn lemma_day_of_cycle(n: int) -> (date: (int, int, int))
    requires
        0 <= n,
    ensures
        is_date(date.0, date.1, date.2),
        day_number(date.0, date.1, date.2) == n,
    decreases n,
{
    if n == 0 {
        assert(day_number(1970, 1, 1) == 0);
        (1970, 1, 1)
    } else {
        let before = lemma_day_of_cycle(n - 1);
        lemma_next_day(before.0, before.1, before.2)
    }
}

/// The calendar repeats every 400 years, which are 146097 days.
pub proof fn law_calendar_repeats(year: int, month: int, day: int, k: int)
    requires
        is_date(year, month, day),
    ensures
        is_date(year + 400 * k, month, day),
        day_number(year + 400 * k, month, day) == day_number(year, month, day) + 146097 * k,
{
    let y = march_year(year, month);
    assert(march_year(year + 400 * k, month) == y + 400 * k);
    lemma_shifted_year(y, k);
    lemma_shifted_year(year, k);
}

proof fn lemma_shifted_year(y: int, k: int)
    ensures
        (y + 400 * k) / 4 == y / 4 + 100 * k,
        (y + 400 * k) / 100 == y / 100 + 4 * k,
        (y + 400 * k) / 400 == y / 400 + k,
        (y + 400 * k) % 4 == y % 4,
        (y + 400 * k) % 100 == y % 100,
        (y + 400 * k) % 400 == y % 400,
{
}

/// Every day has a date.
pub proof fn law_day_has_date(n: int) -> (date: (int, int, int))
    ensures
        is_date(date.0, date.1, date.2),
        day_number(date.0, date.1, date.2) == n,
{
    let k = n / 146097;
    let first = lemma_day_of_cycle(n % 146097);
    law_calendar_repeats(first.0, first.1, first.2, k);
    (first.0 + 400 * k, first.1, first.2)
}

/// The five bytes of an instant tell it: the first two the number of its day, counted
/// from the 17th of November 1858, and the others, in decimal digits, the hour, the minute
/// and the second.
pub proof fn law_dvb_time_tells(secs: int)
    requires
        -62_162_035_200 <= secs <= MAX_SECS,
    ensures
        dvb_time_bytes(secs).len() == 5,
        dvb_time_bytes(secs)[0] * 256 + dvb_time_bytes(secs)[1] == (40587 + secs / 86400) % 65536,
        bcd_value(dvb_time_bytes(secs)[2]) * 3600 + bcd_value(dvb_time_bytes(secs)[3]) * 60
            + bcd_value(dvb_time_bytes(secs)[4]) == secs % 86400,
{
    lemma_dvb_time_is_counted(secs);
    lemma_time_of_day(secs);
    lemma_bcd_back((secs % 86400) / 3600);
    lemma_bcd_back((secs % 3600) / 60);
    lemma_bcd_back(secs % 60);
    lemma_day_seconds(secs);
    let mjd = (40587 + secs / 86400) % 65536;
    assert(mjd / 256 < 256);
}

proof fn lemma_bcd_back(v: int)
    requires
        0 <= v < 100,
    ensures
        bcd_value(bcd_of(v)) == v,
{
}

proof fn lemma_day_seconds(secs: int)
    ensures
        ((secs % 86400) / 3600) * 3600 + ((secs % 3600) / 60) * 60 + secs % 60 == secs % 86400,
{
    let q = secs / 86400;
    let d = secs % 86400;
    let h = d / 3600;
    let r = d % 3600;
    let m = r / 60;
    let t = r % 60;
    lemma_fundamental_div_mod_converse(secs, 3600, 24 * q + h, r);
    lemma_fundamental_div_mod_converse(secs, 60, 1440 * q + 60 * h + m, t);
}

proof fn lemma_dvb_time_is_counted(secs: int)
    requires
        -62_162_035_200 <= secs <= MAX_SECS,
    ensures
        dvb_time_bytes(secs) == dvb_time_of(secs),
{
    let (year, month, day) = law_day_has_date(secs / 86400);
    lemma_instant_date(year, month, day, secs);
    let bytes = time_field(mjd_of(year, month, day), secs);
    assert(is_dvb_time(bytes, secs));
    assert(is_dvb_time(dvb_time_bytes(secs), secs));
    law_dvb_time_unique(bytes, dvb_time_bytes(secs), secs);
}

/// An instant takes five bytes, whenever it is.
pub proof fn lemma_dvb_time_len(secs: int)
    ensures
        dvb_time_bytes(secs).len() == 5,
{
    let (year, month, day) = law_day_has_date(secs / 86400);
    assert(is_dvb_time(time_field(mjd_of(year, month, day), secs), secs));
    assert(is_dvb_time(dvb_time_bytes(secs), secs));
}

/// An offset from UTC is told in hours and minutes, without its sign.
pub proof fn law_offset_tells(offset: int)
    requires
        -86400 < offset < 86400,
    ensures
        offset_field(offset).len() == 2,
        ({
            let told = bcd_value(offset_field(offset)[0]) * 3600 + bcd_value(
                offset_field(offset)[1],
            ) * 60;
            if offset >= 0 {
                told <= offset < told + 60
            } else {
                told <= -offset < told + 60
            }
        }),
{
    let size = if offset >= 0 {
        offset
    } else {
        -offset
    };
    let minutes = size / 60;
    assert(bcd_value(bcd_of(minutes / 60)) == minutes / 60);
    assert(bcd_value(bcd_of(minutes % 60)) == minutes % 60);
}

} // verus!
