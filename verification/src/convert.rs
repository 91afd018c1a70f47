//! The boundary to the lunisolar conversion table.
//!
//! The Korean lunisolar calendar cannot be computed from first
//! principles; it is a table of observed month lengths. The
//! `korean-lunar-calendar` crate holds that table and converts one lunar
//! date to a Gregorian date. This module gives that conversion a name,
//! [`gregorian_of`], and a single trusted wrapper; everything else in the
//! library is verified against the name.

use vstd::prelude::*;

use crate::dates::{solar_lt, SolarDate};

use chrono::Datelike;

verus! {

/// The Gregorian date that the conversion table assigns to the lunar
/// date `(year, month, leap, day)`, or `None` when the table has no
/// month `(month, leap)` in that lunar year. The table runs from lunar
/// year 1583 to lunar year 2050; outside it every lookup is `None`.
pub uninterp spec fn gregorian_of(year: int, month: int, leap: bool, day: int) -> Option<
    SolarDate,
>;

/// Relies on `korean_lunar_calendar::lunar_to_gregorian`: it scans the
/// month table in chronological order, sums the day counts of every
/// month before the first entry matching `(year, month, leap)`, and adds
/// that sum plus `day - 1` to the table's base date (1583-01-24); with
/// no matching entry it returns `None`. The result depends on the
/// arguments alone. Because later years match later in the table and
/// every month length is positive, two successful conversions of the
/// same `(month, leap, day)` in different years land in year order.
/// The call subtracts one from `day`, so `day == 0` would underflow;
/// day numbers start at 1.
#[verifier::external_body]
pub(crate) fn lunar_to_solar(year: i32, month: u8, leap: bool, day: u8) -> (r: Option<SolarDate>)
    requires
        day >= 1,
    ensures
        r == gregorian_of(year as int, month as int, leap, day as int),
        r matches Some(s) ==> 1583 <= s.year <= 2052 && 1 <= s.month <= 12 && 1 <= s.day <= 31,
        forall|y2: int, s1: SolarDate, s2: SolarDate|
            r == Some::<SolarDate>(s1) && y2 > year && gregorian_of(
                y2,
                month as int,
                leap,
                day as int,
            ) == Some::<SolarDate>(s2) ==> solar_lt(s1, s2),
{
    let lunar = korean_lunar_calendar::LunarDate { year, month: (month, leap), day };
    korean_lunar_calendar::lunar_to_gregorian(&lunar).map(
        |d| SolarDate { year: d.year() as u16, month: d.month() as u8, day: d.day() as u8 },
    )
}

} // verus!
