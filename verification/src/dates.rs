//! Calendar dates as day numbers in the proleptic Gregorian calendar.
//!
//! Day 1 is 0001-01-01, which was a Monday; day numbers run up to
//! 9999-12-31. All calendar arithmetic (weekday, ordering, shifting by
//! whole days) is plain integer arithmetic on the day number.

use vstd::prelude::*;

verus! {

/// Day number of 9999-12-31, the largest date this crate represents.
pub const MAX_DAY_NUMBER: i64 = 3652059;

/// Seconds in one calendar day.
pub const SECONDS_PER_DAY: u32 = 86400;

pub open spec fn is_leap_year(y: int) -> bool {
    y % 4 == 0 && (y % 100 != 0 || y % 400 == 0)
}

pub open spec fn days_in_month(y: int, m: int) -> int {
    if m == 2 {
        if is_leap_year(y) {
            29
        } else {
            28
        }
    } else if m == 4 || m == 6 || m == 9 || m == 11 {
        30
    } else {
        31
    }
}

/// Days in the months before month `m` of year `y`.
pub open spec fn days_before_month(y: int, m: int) -> int {
    let base: int = if m == 1 {
        0
    } else if m == 2 {
        31
    } else if m == 3 {
        59
    } else if m == 4 {
        90
    } else if m == 5 {
        120
    } else if m == 6 {
        151
    } else if m == 7 {
        181
    } else if m == 8 {
        212
    } else if m == 9 {
        243
    } else if m == 10 {
        273
    } else if m == 11 {
        304
    } else {
        334
    };
    base + (if m > 2 && is_leap_year(y) {
        1int
    } else {
        0int
    })
}

pub open spec fn valid_ymd(y: int, m: int, d: int) -> bool {
    &&& 1 <= y <= 9999
    &&& 1 <= m <= 12
    &&& 1 <= d <= days_in_month(y, m)
}

/// Day number of the calendar date `y`-`m`-`d`: the count of days from
/// 0000-12-31, so that 0001-01-01 is day 1.
pub open spec fn day_number_of(y: int, m: int, d: int) -> int {
    365 * (y - 1) + (y - 1) / 4 - (y - 1) / 100 + (y - 1) / 400 + days_before_month(y, m) + d
}

/// Weekday of a day number: 0 = Monday .. 6 = Sunday.
pub open spec fn weekday_of(day: int) -> int {
    (day - 1) % 7
}

/// A calendar date, stored as its day number.
#[derive(Clone, Copy, PartialEq, Eq, Structural, Debug)]
pub struct Date {
    pub day: i64,
}

impl View for Date {
    type V = int;

    open spec fn view(&self) -> int {
        self.day as int
    }
}

impl Date {
    pub open spec fn wf(self) -> bool {
        1 <= self.day <= MAX_DAY_NUMBER
    }

    /// The date of the given calendar day, or `None` if `y`-`m`-`d` is not
    /// a real date (or lies outside years 1..=9999).
    pub fn from_ymd(y: i64, m: i64, d: i64) -> (r: Option<Date>)
        ensures
            match r {
                Some(date) => valid_ymd(y as int, m as int, d as int) && date@ == day_number_of(
                    y as int,
                    m as int,
                    d as int,
                ) && date.wf(),
                None => !valid_ymd(y as int, m as int, d as int),
            },
    {
        if y < 1 || y > 9999 || m < 1 || m > 12 || d < 1 {
            return None;
        }
        let leap: bool = (y % 4 == 0 && y % 100 != 0) || y % 400 == 0;
        let dim: i64 = if m == 2 {
            if leap {
                29
            } else {
                28
            }
        } else if m == 4 || m == 6 || m == 9 || m == 11 {
            30
        } else {
            31
        };
        if d > dim {
            return None;
        }
        let before: i64 = match m {
            1 => 0,
            2 => 31,
            3 => 59,
            4 => 90,
            5 => 120,
            6 => 151,
            7 => 181,
            8 => 212,
            9 => 243,
            10 => 273,
            11 => 304,
            _ => 334,
        };
        let before: i64 = before + if m > 2 && leap {
            1
        } else {
            0
        };
        let yy: u64 = (y - 1) as u64;
        let days: u64 = 365 * yy + yy / 4 - yy / 100 + yy / 400;
        assert(yy / 100 <= yy / 4) by {
            vstd::arithmetic::div_mod::lemma_div_is_ordered_by_denominator(yy as int, 4, 100);
        };
        let day: i64 = days as i64 + before + d;
        Some(Date { day })
    }

    /// Weekday of this date: 0 = Monday .. 6 = Sunday.
    pub fn weekday_index(&self) -> (w: usize)
        requires
            self.wf(),
        ensures
            w == weekday_of(self@),
            w < 7,
    {
        let w: u64 = ((self.day as u64) - 1) % 7;
        w as usize
    }
}

/// A calendar date together with a second-of-day, standing for a wall-clock
/// moment with no time zone attached.
#[derive(Clone, Copy, PartialEq, Eq, Structural, Debug)]
pub struct DateTime {
    pub date: Date,
    pub seconds: u32,
}

impl DateTime {
    pub open spec fn wf(self) -> bool {
        self.date.wf() && self.seconds < SECONDS_PER_DAY
    }

    /// The moment as a count of seconds from midnight of day 0.
    pub open spec fn timestamp(self) -> int {
        self.date@ * (SECONDS_PER_DAY as int) + self.seconds
    }

    /// A moment on `date` at `seconds` past midnight, or `None` if
    /// `seconds` does not fall within one day.
    pub fn new(date: Date, seconds: u32) -> (r: Option<DateTime>)
        requires
            date.wf(),
        ensures
            match r {
                Some(dt) => seconds < SECONDS_PER_DAY && dt == (DateTime { date, seconds })
                    && dt.wf(),
                None => seconds >= SECONDS_PER_DAY,
            },
    {
        if seconds < SECONDS_PER_DAY {
            Some(DateTime { date, seconds })
        } else {
            None
        }
    }
}

} // verus!
