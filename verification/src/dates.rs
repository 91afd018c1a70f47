//! Value types shared by the resolver and the encoder.

use vstd::prelude::*;

verus! {

/// A date in the Korean lunisolar calendar, as entered by the user:
/// the three integers of a `"year.month.day"` string plus the leap-month
/// flag. Whether the combination names an existing lunar day is decided
/// by the conversion table alone, not by local range checks, because
/// leap-month occurrence is calendar-dependent.
#[derive(Clone, Copy, Debug, PartialEq, Eq, Structural)]
pub struct LunarDate {
    /// Lunar year.
    pub year: u32,
    /// Lunar month; a regular and a leap month of the same number are
    /// told apart by `is_leap_month`.
    pub month: u32,
    /// Whether the intercalary (leap) month of this number is meant.
    pub is_leap_month: bool,
    /// Day of the lunar month.
    pub day: u32,
}

/// A proleptic Gregorian calendar date, with no time-of-day component.
/// Produced by the lunisolar conversion; never built from raw user input.
#[derive(Clone, Copy, Debug, PartialEq, Eq, Structural)]
pub struct SolarDate {
    /// Gregorian year.
    pub year: u16,
    /// Gregorian month, `1..=12`.
    pub month: u8,
    /// Day of the month, `1..=31`.
    pub day: u8,
}

/// A wall-clock instant in UTC, already broken into calendar fields.
/// The encoder stamps every entry with one; the caller supplies it.
#[derive(Clone, Copy, Debug, PartialEq, Eq, Structural)]
pub struct Timestamp {
    /// Year.
    pub year: u16,
    /// Month, `1..=12`.
    pub month: u8,
    /// Day of the month.
    pub day: u8,
    /// Hour, `0..=23`.
    pub hour: u8,
    /// Minute, `0..=59`.
    pub minute: u8,
    /// Second, `0..=59`.
    pub second: u8,
}

/// The fields of a timestamp name a real wall-clock instant and fit
/// their fixed-width printed form.
pub open spec fn timestamp_wf(t: Timestamp) -> bool {
    t.year <= 9999 && 1 <= t.month <= 12 && 1 <= t.day <= 31 && t.hour <= 23 && t.minute <= 59
        && t.second <= 59
}

/// Calendar order on solar dates: by year, then month, then day.
pub open spec fn solar_lt(a: SolarDate, b: SolarDate) -> bool {
    a.year < b.year
        || (a.year == b.year && a.month < b.month)
        || (a.year == b.year && a.month == b.month && a.day < b.day)
}

/// A sequence of solar dates in strictly increasing calendar order.
pub open spec fn strictly_increasing(s: Seq<SolarDate>) -> bool {
    forall|i: int, j: int| 0 <= i < j < s.len() ==> solar_lt(s[i], s[j])
}

} // verus!
