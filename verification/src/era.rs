//! The Japanese imperial era calendar, supplied by the `era_jp` crate. Its
//! table is small enough to state outright: five era-start instants split
//! the timeline into the pre-Meiji years and the Meiji, Taisho, Showa,
//! Heisei and Reiwa eras, each with its year numbering and its names.

use chrono::TimeZone;
use crate::instant::Instant;
use vstd::prelude::*;

verus! {

/// Whether an instant falls strictly before a day's 15:00 UTC, the hour at
/// which each era turns over (midnight in Japan).
pub open spec fn before_turnover(
    y: int, mo: int, d: int, h: int,
    by: int, bmo: int, bd: int,
) -> bool {
    ||| y < by
    ||| (y == by && mo < bmo)
    ||| (y == by && mo == bmo && d < bd)
    ||| (y == by && mo == bmo && d == bd && h < 15)
}

/// Which era an instant falls in: 0 for the pre-Meiji years, then 1 to 5
/// for Meiji, Taisho, Showa, Heisei and Reiwa, split at the era-start
/// instants the calendar uses (1868-09-07, 1912-07-29, 1926-12-24,
/// 1989-01-06 and 2019-04-30, each at 15:00 UTC).
pub open spec fn era_index(y: int, mo: int, d: int, h: int) -> int {
    if before_turnover(y, mo, d, h, 1868, 9, 7) {
        0
    } else if before_turnover(y, mo, d, h, 1912, 7, 29) {
        1
    } else if before_turnover(y, mo, d, h, 1926, 12, 24) {
        2
    } else if before_turnover(y, mo, d, h, 1989, 1, 6) {
        3
    } else if before_turnover(y, mo, d, h, 2019, 4, 30) {
        4
    } else {
        5
    }
}

/// The era-relative year number of an instant: the calendar year before
/// Meiji, else the offset from the era's first calendar year, counted
/// from one.
pub open spec fn era_year_of(y: int, mo: int, d: int, h: int, mi: int, s: int) -> int {
    let e = era_index(y, mo, d, h);
    if e == 0 {
        y
    } else if e == 1 {
        y - 1867
    } else if e == 2 {
        y - 1911
    } else if e == 3 {
        y - 1925
    } else if e == 4 {
        y - 1988
    } else {
        y - 2018
    }
}

/// The abbreviation of the era an instant falls in: one Latin letter, or
/// the Western-calendar marker before Meiji.
pub open spec fn era_abbreviation_of(
    y: int, mo: int, d: int, h: int, mi: int, s: int) -> Seq<char> {
    let e = era_index(y, mo, d, h);
    if e == 0 {
        seq!['西', '暦']
    } else if e == 1 {
        seq!['M']
    } else if e == 2 {
        seq!['T']
    } else if e == 3 {
        seq!['S']
    } else if e == 4 {
        seq!['H']
    } else {
        seq!['R']
    }
}

/// The one-character short name of the era an instant falls in, or the
/// Western-calendar marker before Meiji.
pub open spec fn era_short_name_of(
    y: int, mo: int, d: int, h: int, mi: int, s: int) -> Seq<char> {
    let e = era_index(y, mo, d, h);
    if e == 0 {
        seq!['西', '暦']
    } else if e == 1 {
        seq!['明']
    } else if e == 2 {
        seq!['大']
    } else if e == 3 {
        seq!['昭']
    } else if e == 4 {
        seq!['平']
    } else {
        seq!['令']
    }
}

/// The full name of the era an instant falls in, or the Western-calendar
/// marker before Meiji.
pub open spec fn era_name_of(y: int, mo: int, d: int, h: int, mi: int, s: int) -> Seq<char> {
    let e = era_index(y, mo, d, h);
    if e == 0 {
        seq!['西', '暦']
    } else if e == 1 {
        seq!['明', '治']
    } else if e == 2 {
        seq!['大', '正']
    } else if e == 3 {
        seq!['昭', '和']
    } else if e == 4 {
        seq!['平', '成']
    } else {
        seq!['令', '和']
    }
}

/// Relies on era_jp::get_year: the era-relative year of the given UTC
/// instant — the calendar year before Meiji, else the year counted from
/// the era's first calendar year, with the eras split at the five
/// era-start instants.
#[verifier::external_body]
pub fn era_year(t: &Instant) -> (r: i64)
    requires
        t.is_valid(),
    ensures
        r == era_year_of(t.year as int, t.month as int, t.day as int,
                         t.hour as int, t.minute as int, t.second as int),
{
    era_jp::get_year(
        &chrono::Utc
            .with_ymd_and_hms(t.year as i32, t.month, t.day, t.hour, t.minute, t.second)
            .unwrap(),
    )
}

/// Relies on era_jp::get_abbreviation_name: the era's abbreviation letter
/// (`M`, `T`, `S`, `H`, `R`, or the pre-Meiji marker) for the given UTC
/// instant.
#[verifier::external_body]
pub fn era_abbreviation(t: &Instant) -> (r: String)
    requires
        t.is_valid(),
    ensures
        r@ == era_abbreviation_of(t.year as int, t.month as int, t.day as int,
                                  t.hour as int, t.minute as int, t.second as int),
{
    era_jp::get_abbreviation_name(
        &chrono::Utc
            .with_ymd_and_hms(t.year as i32, t.month, t.day, t.hour, t.minute, t.second)
            .unwrap(),
    )
    .to_string()
}

/// Relies on era_jp::get_short_name: the era's one-character short name
/// for the given UTC instant.
#[verifier::external_body]
pub fn era_short_name(t: &Instant) -> (r: String)
    requires
        t.is_valid(),
    ensures
        r@ == era_short_name_of(t.year as int, t.month as int, t.day as int,
                                t.hour as int, t.minute as int, t.second as int),
{
    era_jp::get_short_name(
        &chrono::Utc
            .with_ymd_and_hms(t.year as i32, t.month, t.day, t.hour, t.minute, t.second)
            .unwrap(),
    )
    .to_string()
}

/// Relies on era_jp::get_name: the era's full name for the given UTC
/// instant.
#[verifier::external_body]
pub fn era_name(t: &Instant) -> (r: String)
    requires
        t.is_valid(),
    ensures
        r@ == era_name_of(t.year as int, t.month as int, t.day as int,
                          t.hour as int, t.minute as int, t.second as int),
{
    era_jp::get_name(
        &chrono::Utc
            .with_ymd_and_hms(t.year as i32, t.month, t.day, t.hour, t.minute, t.second)
            .unwrap(),
    )
    .to_string()
}

} // verus!
