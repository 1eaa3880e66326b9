//! The stored form of a date value: a UTC instant at second granularity,
//! held as plain calendar fields, together with the proleptic-Gregorian
//! day arithmetic that the serial-number bridge and the renderer need.

use crate::address::{digit_val, is_digit};
use vstd::prelude::*;

verus! {

/// A UTC instant at second granularity.
#[derive(Clone, Copy, Debug, PartialEq, Eq, Structural)]
pub struct Instant {
    pub year: u32,
    pub month: u32,
    pub day: u32,
    pub hour: u32,
    pub minute: u32,
    pub second: u32,
}

/// A proleptic-Gregorian leap year.
pub open spec fn is_leap_year(y: int) -> bool {
    y % 4 == 0 && (y % 100 != 0 || y % 400 == 0)
}

/// Days in one calendar month.
pub open spec fn days_in_month(y: int, m: int) -> int {
    if m == 2 {
        if is_leap_year(y) { 29 } else { 28 }
    } else if m == 4 || m == 6 || m == 9 || m == 11 {
        30
    } else {
        31
    }
}

/// Days in one calendar year.
pub open spec fn days_in_year(y: int) -> int {
    if is_leap_year(y) { 366 } else { 365 }
}

/// Days from the first day of year 1 to the first day of year `y`.
pub open spec fn days_before_year(y: int) -> int
    decreases y,
{
    if y <= 1 {
        0
    } else {
        days_before_year(y - 1) + days_in_year(y - 1)
    }
}

/// Days from the first day of year `y` to the first day of its month `m`.
pub open spec fn days_before_month(y: int, m: int) -> int
    decreases m,
{
    if m <= 1 {
        0
    } else {
        days_before_month(y, m - 1) + days_in_month(y, m - 1)
    }
}

/// The zero-based day number of a calendar date, counted from 0001-01-01.
pub open spec fn day_number_of(y: int, m: int, d: int) -> int {
    days_before_year(y) + days_before_month(y, m) + d - 1
}

/// The second within its day that an instant falls on.
pub open spec fn sec_of_day(h: int, mi: int, s: int) -> int {
    h * 3600 + mi * 60 + s
}

impl Instant {
    /// A well-formed instant: a real calendar date between years 1 and 9999
    /// and a time of day.
    pub open spec fn is_valid(self) -> bool {
        1 <= self.year <= 9999
        && 1 <= self.month <= 12
        && 1 <= self.day <= days_in_month(self.year as int, self.month as int)
        && self.hour < 24
        && self.minute < 60
        && self.second < 60
    }

    /// The zero-based day number of this instant's date.
    pub open spec fn spec_day_number(self) -> int {
        day_number_of(self.year as int, self.month as int, self.day as int)
    }

    /// The second of the day this instant falls on.
    pub open spec fn spec_sec_of_day(self) -> int {
        sec_of_day(self.hour as int, self.minute as int, self.second as int)
    }

    /// Builds an instant after checking every field, so that the result is
    /// always well formed.
    pub fn new(year: u32, month: u32, day: u32, hour: u32, minute: u32, second: u32)
        -> (r: Option<Instant>)
        ensures
            match r {
                Some(t) => t == (Instant { year, month, day, hour, minute, second })
                    && t.is_valid(),
                None => !(Instant { year, month, day, hour, minute, second }).is_valid(),
            },
    {
        let t = Instant { year, month, day, hour, minute, second };
        if 1 <= year && year <= 9999 && 1 <= month && month <= 12
            && 1 <= day && day <= days_in_month_exec(year, month)
            && hour < 24 && minute < 60 && second < 60 {
            Some(t)
        } else {
            None
        }
    }
}

/// Days in one calendar month.
pub fn days_in_month_exec(y: u32, m: u32) -> (r: u32)
    ensures
        r == days_in_month(y as int, m as int),
{
    if m == 2 {
        if (y % 4 == 0 && y % 100 != 0) || y % 400 == 0 { 29 } else { 28 }
    } else if m == 4 || m == 6 || m == 9 || m == 11 {
        30
    } else {
        31
    }
}

/// Days in one calendar year.
pub fn days_in_year_exec(y: u32) -> (r: u32)
    ensures
        r == days_in_year(y as int),
{
    if (y % 4 == 0 && y % 100 != 0) || y % 400 == 0 { 366 } else { 365 }
}

/// Counting days before a year grows by at most 366 a year.
proof fn lemma_days_before_year_bounds(y: int)
    requires
        y >= 1,
    ensures
        365 * (y - 1) <= days_before_year(y) <= 366 * (y - 1),
    decreases y,
{
    if y > 1 {
        lemma_days_before_year_bounds(y - 1);
    }
}

/// Later years begin on later days.
proof fn lemma_days_before_year_mono(y1: int, y2: int)
    requires
        y1 <= y2,
    ensures
        days_before_year(y1) <= days_before_year(y2),
    decreases y2 - y1,
{
    if y1 < y2 {
        lemma_days_before_year_mono(y1, y2 - 1);
        if y2 > 1 {
            assert(days_in_year(y2 - 1) > 0);
        }
    }
}

/// Later months begin on later days.
proof fn lemma_days_before_month_mono(y: int, m1: int, m2: int)
    requires
        m1 <= m2,
    ensures
        days_before_month(y, m1) <= days_before_month(y, m2),
    decreases m2 - m1,
{
    if m1 < m2 {
        lemma_days_before_month_mono(y, m1, m2 - 1);
        assert(days_in_month(y, m2 - 1) > 0);
    }
}

/// The twelve months of a year exactly fill it.
proof fn lemma_year_months(y: int)
    ensures
        days_before_month(y, 13) == days_in_year(y),
{
    reveal_with_fuel(days_before_month, 14);
}

/// A date's day number stays inside its own year.
proof fn lemma_day_in_year(y: int, m: int, d: int)
    requires
        1 <= m <= 12,
        1 <= d <= days_in_month(y, m),
    ensures
        0 <= days_before_month(y, m) + d - 1 < days_in_year(y),
{
    lemma_days_before_month_mono(y, 1, m);
    lemma_days_before_month_mono(y, m + 1, 13);
    lemma_year_months(y);
}

/// Two well-formed dates with one day number are the same date.
pub proof fn lemma_day_number_injective(a: Instant, b: Instant)
    requires
        a.is_valid(),
        b.is_valid(),
        a.spec_day_number() == b.spec_day_number(),
    ensures
        a.year == b.year,
        a.month == b.month,
        a.day == b.day,
{
    lemma_day_in_year(a.year as int, a.month as int, a.day as int);
    lemma_day_in_year(b.year as int, b.month as int, b.day as int);
    if a.year < b.year {
        lemma_days_before_year_mono(a.year as int + 1, b.year as int);
        assert(false);
    }
    if b.year < a.year {
        lemma_days_before_year_mono(b.year as int + 1, a.year as int);
        assert(false);
    }
    let y = a.year as int;
    if a.month < b.month {
        lemma_days_before_month_mono(y, a.month as int + 1, b.month as int);
        assert(false);
    }
    if b.month < a.month {
        lemma_days_before_month_mono(y, b.month as int + 1, a.month as int);
        assert(false);
    }
}

/// A well-formed date's day number lies under the bound for year 10000.
pub proof fn lemma_day_number_in_range(t: Instant)
    requires
        t.is_valid(),
    ensures
        0 <= t.spec_day_number() < days_before_year(10000),
        days_before_year(10000) <= 366 * 9999,
{
    lemma_day_in_year(t.year as int, t.month as int, t.day as int);
    lemma_days_before_year_mono(1, t.year as int);
    lemma_days_before_year_mono(t.year as int + 1, 10000);
    lemma_days_before_year_bounds(10000);
}

/// The zero-based day number of this instant's date, counted from
/// 0001-01-01.
pub fn day_number(t: &Instant) -> (n: u32)
    requires
        t.is_valid(),
    ensures
        n == t.spec_day_number(),
{
    let mut acc: u32 = 0;
    let mut y: u32 = 1;
    while y < t.year
        invariant
            1 <= y <= t.year <= 9999,
            acc == days_before_year(y as int),
            acc <= 366 * (y - 1),
        decreases t.year - y,
    {
        acc = acc + days_in_year_exec(y);
        y = y + 1;
    }
    let mut m: u32 = 1;
    while m < t.month
        invariant
            t.is_valid(),
            1 <= m <= t.month,
            acc == days_before_year(t.year as int) + days_before_month(t.year as int, m as int),
            acc <= 366 * 9999 + 31 * (m - 1),
        decreases t.month - m,
    {
        acc = acc + days_in_month_exec(t.year, m);
        m = m + 1;
    }
    acc + t.day - 1
}

/// The serial day count and second of day of an instant, relative to the
/// legacy 1900 epoch: day numbers are offset so that 1900-01-01 becomes
/// serial day 2, reproducing the target ecosystem's off-by-two quirk.
pub open spec fn serial_of(t: Instant) -> (int, int) {
    (t.spec_day_number() - day_number_of(1900, 1, 1) + 2, t.spec_sec_of_day())
}

/// The well-formed instant a serial pair denotes, when one exists.
pub open spec fn instant_of_serial(days: int, seconds: int) -> Option<Instant> {
    if exists|t: Instant| t.is_valid() && serial_of(t) == (days, seconds) {
        Some(choose|t: Instant| t.is_valid() && serial_of(t) == (days, seconds))
    } else {
        None
    }
}

/// One second of day belongs to one time of day.
proof fn lemma_sec_of_day_injective(a: Instant, b: Instant)
    requires
        a.is_valid(),
        b.is_valid(),
        a.spec_sec_of_day() == b.spec_sec_of_day(),
    ensures
        a.hour == b.hour,
        a.minute == b.minute,
        a.second == b.second,
{
}

/// The serial pair determines the instant.
pub proof fn lemma_serial_injective(a: Instant, b: Instant)
    requires
        a.is_valid(),
        b.is_valid(),
        serial_of(a) == serial_of(b),
    ensures
        a == b,
{
    lemma_day_number_injective(a, b);
    lemma_sec_of_day_injective(a, b);
}

/// Converts an instant to its serial day count and second of day.
pub fn instant_to_serial(t: &Instant) -> (r: (i64, u32))
    requires
        t.is_valid(),
    ensures
        (r.0 as int, r.1 as int) == serial_of(*t),
{
    let n = day_number(t);
    let epoch = day_number(&Instant { year: 1900, month: 1, day: 1,
                                      hour: 0, minute: 0, second: 0 });
    proof {
        lemma_day_number_in_range(*t);
        lemma_day_number_in_range(Instant { year: 1900, month: 1, day: 1,
                                            hour: 0, minute: 0, second: 0 });
    }
    let days = n as i64 - epoch as i64 + 2;
    let secs = t.hour * 3600 + t.minute * 60 + t.second;
    (days, secs)
}

/// Recovers the well-formed instant a serial pair denotes: the inverse of
/// `instant_to_serial`. `None` exactly when no well-formed instant has that
/// serial pair.
pub fn number_to_date(days: i64, seconds: u32) -> (r: Option<Instant>)
    ensures
        match r {
            Some(t) => t.is_valid() && instant_of_serial(days as int, seconds as int) == Some(t),
            None => instant_of_serial(days as int, seconds as int) is None,
        },
{
    let epoch = day_number(&Instant { year: 1900, month: 1, day: 1,
                                      hour: 0, minute: 0, second: 0 });
    proof {
        lemma_day_number_in_range(Instant { year: 1900, month: 1, day: 1,
                                            hour: 0, minute: 0, second: 0 });
    }
    if seconds >= 86400 {
        proof {
            assert forall|t: Instant| t.is_valid()
                implies serial_of(t).1 != seconds as int by {}
        }
        return None;
    }
    if days < -4000000 || days > 4000000 {
        // Far outside the serial range any well-formed instant can have.
        proof {
            assert forall|t: Instant| t.is_valid()
                implies serial_of(t).0 != days as int by {
                lemma_day_number_in_range(t);
            }
        }
        return None;
    }
    // The day number the serial day count points at.
    let total_wide: i64 = days - 2 + epoch as i64;
    if total_wide < 0 || total_wide > 366 * 9999 {
        proof {
            assert forall|t: Instant| t.is_valid()
                implies serial_of(t).0 != days as int by {
                lemma_day_number_in_range(t);
            }
        }
        return None;
    }
    let total: u32 = total_wide as u32;

    // Find the year the day number falls in.
    let mut y: u32 = 1;
    let mut rem: u32 = total;
    loop
        invariant
            1 <= y <= 9999,
            days_before_year(y as int) + rem == total,
            total == days as int - 2 + day_number_of(1900, 1, 1),
        ensures
            1 <= y <= 9999,
            days_before_year(y as int) + rem == total,
            rem < days_in_year(y as int),
        decreases rem,
    {
        let in_year = days_in_year_exec(y);
        if rem < in_year {
            break;
        }
        if y == 9999 {
            // Beyond the supported calendar range.
            proof {
                assert(total >= days_before_year(10000));
                assert forall|t: Instant| t.is_valid()
                    implies serial_of(t).0 != days as int by {
                    lemma_day_number_in_range(t);
                }
            }
            return None;
        }
        rem = rem - in_year;
        y = y + 1;
    }

    // Find the month within the year.
    let mut m: u32 = 1;
    while m < 12
        invariant
            1 <= m <= 12,
            1 <= y <= 9999,
            days_before_year(y as int) + days_before_month(y as int, m as int) + rem == total,
            days_before_month(y as int, m as int) + rem < days_in_year(y as int),
            total == days as int - 2 + day_number_of(1900, 1, 1),
            m == 12 ==> rem < days_in_month(y as int, 12),
        ensures
            1 <= m <= 12,
            days_before_year(y as int) + days_before_month(y as int, m as int) + rem == total,
            rem < days_in_month(y as int, m as int),
        decreases 12 - m,
    {
        let in_month = days_in_month_exec(y, m);
        if rem < in_month {
            break;
        }
        rem = rem - in_month;
        m = m + 1;
        proof {
            if m == 12 && rem >= days_in_month(y as int, 12) {
                lemma_year_months(y as int);
                assert(days_before_month(y as int, 13)
                    == days_before_month(y as int, 12) + days_in_month(y as int, 12));
                assert(days_before_month(y as int, 12) + rem < days_in_year(y as int));
                assert(false);
            }
        }
    }

    let t = Instant {
        year: y,
        month: m,
        day: rem + 1,
        hour: seconds / 3600,
        minute: (seconds % 3600) / 60,
        second: seconds % 60,
    };
    proof {
        assert(t.is_valid());
        assert(t.spec_day_number() == total);
        assert(t.spec_sec_of_day() == seconds) by {
            let s = seconds as int;
            assert(s / 3600 * 3600 + s % 3600 == s) by {
                vstd::arithmetic::div_mod::lemma_fundamental_div_mod(s, 3600);
            }
            assert((s % 3600) / 60 * 60 + (s % 3600) % 60 == s % 3600) by {
                vstd::arithmetic::div_mod::lemma_fundamental_div_mod(s % 3600, 60);
            }
            assert((s % 3600) % 60 == s % 60) by {
                vstd::arithmetic::div_mod::lemma_mod_mod(s, 60, 60);
                assert(3600 == 60 * 60);
            }
        }
        assert(serial_of(t) == (days as int, seconds as int));
        let w = choose|u: Instant| u.is_valid() && serial_of(u) == (days as int, seconds as int);
        lemma_serial_injective(w, t);
    }
    Some(t)
}

/// The serial round trip: converting a well-formed instant to its serial
/// pair and back recovers the instant.
pub proof fn lemma_serial_round_trip(t: Instant)
    requires
        t.is_valid(),
    ensures
        instant_of_serial(serial_of(t).0, serial_of(t).1) == Some(t),
{
    let (days, seconds) = serial_of(t);
    assert(t.is_valid() && serial_of(t) == (days, seconds));
    let w = choose|u: Instant| u.is_valid() && serial_of(u) == (days, seconds);
    lemma_serial_injective(w, t);
}

/// A malformed date source string.
#[derive(Clone, Copy, Debug, PartialEq, Eq, Structural)]
pub enum DateError {
    InvalidDateSource,
}

/// The number denoted by two decimal digit characters.
pub open spec fn two_digits(a: char, b: char) -> int {
    digit_val(a) * 10 + digit_val(b)
}

/// The number denoted by four decimal digit characters.
pub open spec fn four_digits(a: char, b: char, c: char, d: char) -> int {
    ((digit_val(a) * 10 + digit_val(b)) * 10 + digit_val(c)) * 10 + digit_val(d)
}

/// Whether the sequence starts with a `YYYY-MM-DD` calendar date shape.
pub open spec fn date_shape(s: Seq<char>) -> bool {
    s.len() >= 10
    && is_digit(s[0]) && is_digit(s[1]) && is_digit(s[2]) && is_digit(s[3])
    && s[4] == '-' && is_digit(s[5]) && is_digit(s[6])
    && s[7] == '-' && is_digit(s[8]) && is_digit(s[9])
}

/// Whether the sequence carries an `HH:MM:SS` time of day from position 11.
pub open spec fn time_shape(s: Seq<char>) -> bool {
    s.len() >= 19
    && s[10] == 'T'
    && is_digit(s[11]) && is_digit(s[12]) && s[13] == ':'
    && is_digit(s[14]) && is_digit(s[15]) && s[16] == ':'
    && is_digit(s[17]) && is_digit(s[18])
}

/// The well-formed instant a date source string denotes: a bare
/// `YYYY-MM-DD` date, read as midnight UTC, or a
/// `YYYY-MM-DDTHH:MM:SS` timestamp, with or without the trailing UTC
/// designator `Z`. Anything else, and any string whose fields are no real
/// calendar date or time, denotes nothing.
pub open spec fn parse_date_source(s: Seq<char>) -> Option<Instant> {
    if date_shape(s) && s.len() == 10 {
        let t = Instant {
            year: four_digits(s[0], s[1], s[2], s[3]) as u32,
            month: two_digits(s[5], s[6]) as u32,
            day: two_digits(s[8], s[9]) as u32,
            hour: 0,
            minute: 0,
            second: 0,
        };
        if t.is_valid() {
            Some(t)
        } else {
            None
        }
    } else if date_shape(s) && time_shape(s)
        && (s.len() == 19 || (s.len() == 20 && s[19] == 'Z')) {
        let t = Instant {
            year: four_digits(s[0], s[1], s[2], s[3]) as u32,
            month: two_digits(s[5], s[6]) as u32,
            day: two_digits(s[8], s[9]) as u32,
            hour: two_digits(s[11], s[12]) as u32,
            minute: two_digits(s[14], s[15]) as u32,
            second: two_digits(s[17], s[18]) as u32,
        };
        if t.is_valid() {
            Some(t)
        } else {
            None
        }
    } else {
        None
    }
}

/// One decimal digit character's value.
fn digit_of(c: char) -> (r: Option<u32>)
    ensures
        match r {
            Some(v) => is_digit(c) && v == digit_val(c) && v < 10,
            None => !is_digit(c),
        },
{
    if '0' <= c && c <= '9' {
        Some(c as u32 - '0' as u32)
    } else {
        None
    }
}

/// Parses a date source string into the instant it denotes: `YYYY-MM-DD`
/// for midnight UTC, or `YYYY-MM-DDTHH:MM:SS` for a full timestamp, with
/// or without the trailing UTC designator `Z`.
/// A malformed string is a typed failure, never an abort.
pub fn parse_instant(s: &str) -> (r: Result<Instant, DateError>)
    ensures
        match r {
            Ok(t) => parse_date_source(s@) == Some(t) && t.is_valid(),
            Err(_) => parse_date_source(s@) is None,
        },
{
    let len = s.unicode_len();
    if len != 10 && len != 19 && len != 20 {
        return Err(DateError::InvalidDateSource);
    }
    if len == 20 && s.get_char(19) != 'Z' {
        return Err(DateError::InvalidDateSource);
    }
    let d0 = digit_of(s.get_char(0));
    let d1 = digit_of(s.get_char(1));
    let d2 = digit_of(s.get_char(2));
    let d3 = digit_of(s.get_char(3));
    let sep0 = s.get_char(4);
    let d5 = digit_of(s.get_char(5));
    let d6 = digit_of(s.get_char(6));
    let sep1 = s.get_char(7);
    let d8 = digit_of(s.get_char(8));
    let d9 = digit_of(s.get_char(9));
    let (year, month, day) = match (d0, d1, d2, d3, d5, d6, d8, d9) {
        (Some(a), Some(b), Some(c), Some(d), Some(m1), Some(m2), Some(dd1), Some(dd2)) => {
            if sep0 == '-' && sep1 == '-' {
                (((a * 10 + b) * 10 + c) * 10 + d, m1 * 10 + m2, dd1 * 10 + dd2)
            } else {
                return Err(DateError::InvalidDateSource);
            }
        },
        _ => {
            return Err(DateError::InvalidDateSource);
        },
    };
    let (hour, minute, second) = if len == 10 {
        (0, 0, 0)
    } else {
        let tsep = s.get_char(10);
        let h1 = digit_of(s.get_char(11));
        let h2 = digit_of(s.get_char(12));
        let csep0 = s.get_char(13);
        let m1 = digit_of(s.get_char(14));
        let m2 = digit_of(s.get_char(15));
        let csep1 = s.get_char(16);
        let s1 = digit_of(s.get_char(17));
        let s2 = digit_of(s.get_char(18));
        match (h1, h2, m1, m2, s1, s2) {
            (Some(a), Some(b), Some(c), Some(d), Some(e), Some(f)) => {
                if tsep == 'T' && csep0 == ':' && csep1 == ':' {
                    (a * 10 + b, c * 10 + d, e * 10 + f)
                } else {
                    return Err(DateError::InvalidDateSource);
                }
            },
            _ => {
                return Err(DateError::InvalidDateSource);
            },
        }
    };
    match Instant::new(year, month, day, hour, minute, second) {
        Some(t) => Ok(t),
        None => Err(DateError::InvalidDateSource),
    }
}

/// The day of the week of an instant's date, with 0 for Monday through 6
/// for Sunday. Day number 0, 0001-01-01 proleptic Gregorian, was a Monday.
pub open spec fn spec_weekday(t: Instant) -> int {
    t.spec_day_number() % 7
}

/// The day of the week, 0 for Monday through 6 for Sunday.
pub fn weekday(t: &Instant) -> (r: u32)
    requires
        t.is_valid(),
    ensures
        r == spec_weekday(*t),
        r < 7,
{
    day_number(t) % 7
}

} // verus!
