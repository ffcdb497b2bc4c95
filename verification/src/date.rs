//! Calendar dates, carried as day numbers.
//!
//! The engine only ever moves dates by whole weeks, so a date is held as
//! its day count in the proleptic Gregorian calendar (January 1 of year 1
//! is day 1, the count chrono uses).  Advancing one week is then plain
//! arithmetic, and only the conversion from a year/month/day triple needs
//! the calendar itself, which is left to chrono behind a trusted wrapper.

use vstd::prelude::*;

verus! {

/// Smallest day number the engine accepts.  Wide enough to hold every
/// date chrono can represent, with room left for week arithmetic.
pub const MIN_DAY: i64 = -4_000_000_000;

/// Largest day number the engine accepts.
pub const MAX_DAY: i64 = 4_000_000_000;

/// A calendar date, as its day count in the proleptic Gregorian calendar.
#[derive(Clone, Copy, Debug, PartialEq, Eq, Structural)]
pub struct Date {
    /// Days since December 31 of year 0; January 1 of year 1 is day 1.
    pub day: i64,
}

/// The day count in the proleptic Gregorian calendar of the calendar date
/// `year`-`month`-`day`, for triples that name a real date.
pub uninterp spec fn day_number_of(year: int, month: int, day: int) -> int;

impl Date {
    /// Whether the day number lies in the range the engine works with.
    pub open spec fn in_range(self) -> bool {
        MIN_DAY <= self.day <= MAX_DAY
    }

    /// Builds a date from a calendar triple, or `None` when the triple
    /// names no real date or falls outside chrono's range.
    ///
    /// Relies on chrono's `NaiveDate::from_ymd_opt` to accept exactly the
    /// real calendar dates, and on `Datelike::num_days_from_ce` to count
    /// the days from January 1 of year 1 (that date being day 1); both are
    /// functions of the year/month/day triple alone.  The bounds come from
    /// `num_days_from_ce` returning an `i32`.
    #[verifier::external_body]
    pub fn from_ymd(year: i32, month: u32, day: u32) -> (r: Option<Date>)
        ensures
            r matches Some(d) ==> d.day == day_number_of(year as int, month as int, day as int),
            r matches Some(d) ==> -2_147_483_648 <= d.day <= 2_147_483_647,
    {
        match chrono::NaiveDate::from_ymd_opt(year, month, day) {
            Some(nd) => Some(Date { day: chrono::Datelike::num_days_from_ce(&nd) as i64 }),
            None => None,
        }
    }

    /// The date one calendar week later.
    pub fn plus_week(self) -> (r: Date)
        requires
            self.day + 7 <= MAX_DAY,
            MIN_DAY <= self.day,
        ensures
            r.day == self.day + 7,
    {
        Date { day: self.day + 7 }
    }
}

} // verus!
