//! Weekday-only calendar arithmetic.
//!
//! A [`Date`] is a day of the proleptic Gregorian calendar, counted in whole
//! days so that day 1 is January 1 of year 1 (a Monday).  Trading days are
//! Monday through Friday; market holidays are not modeled.

use vstd::prelude::*;

verus! {

/// Smallest day number a [`Date`] may hold: January 1 of year 1.
pub const MIN_DAY_NUMBER: i64 = 1;

/// Largest day number a [`Date`] may hold: December 31 of year 9999.
pub const MAX_DAY_NUMBER: i64 = 3652059;

/// A day number denotes a representable calendar day.
pub open spec fn day_in_range(d: int) -> bool {
    MIN_DAY_NUMBER <= d <= MAX_DAY_NUMBER
}

/// A day number far enough from both ends of the representable range that
/// every chain of calendar steps taken by this library (an offset of at
/// most 32 days followed by a few weekend adjustments) stays in range.
pub open spec fn day_in_op_range(d: int) -> bool {
    MIN_DAY_NUMBER + 64 <= d <= MAX_DAY_NUMBER - 64
}

/// Day of the week of day number `d`: 1 is Monday, ..., 5 is Friday,
/// 6 is Saturday, 0 is Sunday.
pub open spec fn weekday_number(d: int) -> int {
    d % 7
}

/// Monday through Friday.
pub open spec fn is_trading_day(d: int) -> bool {
    1 <= weekday_number(d) <= 5
}

/// Saturday steps back one day, Sunday two; a weekday stays put.
pub open spec fn closest_trading_day_number(d: int) -> int {
    if weekday_number(d) == 6 {
        d - 1
    } else if weekday_number(d) == 0 {
        d - 2
    } else {
        d
    }
}

/// Friday jumps to Monday, Saturday to Monday, any other day to the next day.
pub open spec fn next_trading_day_number(d: int) -> int {
    if weekday_number(d) == 5 {
        d + 3
    } else if weekday_number(d) == 6 {
        d + 2
    } else {
        d + 1
    }
}

/// Monday jumps back to Friday, Sunday to Friday, any other day to the
/// previous day.
pub open spec fn prev_trading_day_number(d: int) -> int {
    if weekday_number(d) == 1 {
        d - 3
    } else if weekday_number(d) == 0 {
        d - 2
    } else {
        d - 1
    }
}

/// Day of the week.
#[derive(Clone, Copy, Debug, PartialEq, Eq, Structural)]
pub enum Weekday {
    Monday,
    Tuesday,
    Wednesday,
    Thursday,
    Friday,
    Saturday,
    Sunday,
}

impl Weekday {
    /// The number this library gives the weekday: 1 for Monday through
    /// 6 for Saturday, and 0 for Sunday.
    pub open spec fn number(self) -> int {
        match self {
            Weekday::Monday => 1,
            Weekday::Tuesday => 2,
            Weekday::Wednesday => 3,
            Weekday::Thursday => 4,
            Weekday::Friday => 5,
            Weekday::Saturday => 6,
            Weekday::Sunday => 0,
        }
    }
}

/// A calendar day (no time of day), as a day number of the proleptic
/// Gregorian calendar: day 1 is January 1 of year 1, a Monday.
#[derive(Clone, Copy, Debug, PartialEq, Eq, Structural, Hash)]
pub struct Date {
    /// The day number; day 1 is January 1 of year 1.
    pub days: i64,
}

/// Weekday-only trading-day steps on a calendar day.
pub trait DatelikeExt: Sized {
    /// The day number of this day.
    spec fn day_number(&self) -> int;

    /// The closest trading day, always stepping backwards on a weekend.
    fn closest_trading_day(&self) -> (r: Self)
        requires
            day_in_range(self.day_number()),
        ensures
            r.day_number() == closest_trading_day_number(self.day_number()),
            is_trading_day(r.day_number()),
    ;

    /// The first trading day strictly after this day.
    fn next_trading_day(&self) -> (r: Self)
        requires
            day_in_range(self.day_number()),
        ensures
            r.day_number() == next_trading_day_number(self.day_number()),
            is_trading_day(r.day_number()),
    ;

    /// The last trading day strictly before this day.
    fn prev_trading_day(&self) -> (r: Self)
        requires
            day_in_range(self.day_number()),
        ensures
            r.day_number() == prev_trading_day_number(self.day_number()),
            is_trading_day(r.day_number()),
    ;
}

impl Date {
    /// The day number of this day.
    pub open spec fn day(self) -> int {
        self.days as int
    }

    /// The day lies in the representable range.
    pub open spec fn in_range(self) -> bool {
        day_in_range(self.day())
    }

    /// The day is far enough from the ends of the representable range for
    /// the date arithmetic of this library.
    pub open spec fn in_op_range(self) -> bool {
        day_in_op_range(self.day())
    }

    /// The day from its day number.
    pub fn from_day_number(days: i64) -> (r: Option<Date>)
        ensures
            match r {
                Some(d) => day_in_range(days as int) && d.day() == days as int,
                None => !day_in_range(days as int),
            },
    {
        if MIN_DAY_NUMBER <= days && days <= MAX_DAY_NUMBER {
            Some(Date { days })
        } else {
            None
        }
    }

    /// The day number, for callers that need the raw count.
    pub fn day_number_value(&self) -> (r: i64)
        ensures
            r as int == self.day(),
    {
        self.days
    }

    /// The day of the week.
    pub fn weekday(&self) -> (r: Weekday)
        requires
            self.day() >= 0,
        ensures
            r.number() == weekday_number(self.day()),
    {
        let w: i64 = self.days % 7;
        match w {
            1 => Weekday::Monday,
            2 => Weekday::Tuesday,
            3 => Weekday::Wednesday,
            4 => Weekday::Thursday,
            5 => Weekday::Friday,
            6 => Weekday::Saturday,
            _ => Weekday::Sunday,
        }
    }

    /// The day a given number of days later (or earlier, for a negative
    /// offset).
    pub fn plus_days(&self, offset: i64) -> (r: Date)
        requires
            -64 <= offset <= 64,
            day_in_range(self.day()),
        ensures
            r.day() == self.day() + offset,
    {
        Date { days: self.days + offset }
    }
}

impl DatelikeExt for Date {
    open spec fn day_number(&self) -> int {
        self.day()
    }

    fn closest_trading_day(&self) -> (r: Date) {
        match self.weekday() {
            Weekday::Saturday => Date { days: self.days - 1 },
            Weekday::Sunday => Date { days: self.days - 2 },
            _ => *self,
        }
    }

    fn next_trading_day(&self) -> (r: Date) {
        match self.weekday() {
            Weekday::Friday => Date { days: self.days + 3 },
            Weekday::Saturday => Date { days: self.days + 2 },
            _ => Date { days: self.days + 1 },
        }
    }

    fn prev_trading_day(&self) -> (r: Date) {
        match self.weekday() {
            Weekday::Monday => Date { days: self.days - 3 },
            Weekday::Sunday => Date { days: self.days - 2 },
            _ => Date { days: self.days - 1 },
        }
    }
}


/// `y` is a leap year of the proleptic Gregorian calendar.
pub open spec fn is_leap_year(y: int) -> bool {
    (y % 4 == 0 && y % 100 != 0) || y % 400 == 0
}

/// Days in month `m` of year `y`.
pub open spec fn days_in_month(y: int, m: int) -> int {
    if m == 2 {
        if is_leap_year(y) {
            29
        } else {
            28
        }
    } else if m == 4 || m == 6 || m == 9 || m == 11 {
        30
    } else {
        31
    }
}

/// Days of year `y` before month `m` begins.
pub open spec fn days_before_month(y: int, m: int) -> int {
    let base: int = if m == 1 {
        0
    } else if m == 2 {
        31
    } else if m == 3 {
        59
    } else if m == 4 {
        90
    } else if m == 5 {
        120
    } else if m == 6 {
        151
    } else if m == 7 {
        181
    } else if m == 8 {
        212
    } else if m == 9 {
        243
    } else if m == 10 {
        273
    } else if m == 11 {
        304
    } else {
        334
    };
    if m >= 3 && is_leap_year(y) {
        base + 1
    } else {
        base
    }
}

/// Days before year `y` begins, counted from day 0.
pub open spec fn days_before_year(y: int) -> int {
    365 * (y - 1) + (y - 1) / 4 - (y - 1) / 100 + (y - 1) / 400
}

/// The day number of the calendar day `y`-`m`-`d`.
pub open spec fn day_number_of_ymd(y: int, m: int, d: int) -> int {
    days_before_year(y) + days_before_month(y, m) + d
}

/// `y`-`m`-`d` denotes a real calendar day of year 1 through 9999.
pub open spec fn valid_ymd(y: int, m: int, d: int) -> bool {
    1 <= y <= 9999 && 1 <= m <= 12 && 1 <= d <= days_in_month(y, m)
}

/// A valid calendar day has a representable day number.
pub proof fn lemma_ymd_in_range(y: int, m: int, d: int)
    requires
        valid_ymd(y, m, d),
    ensures
        day_in_range(day_number_of_ymd(y, m, d)),
{
    let a = y - 1;
    vstd::arithmetic::div_mod::lemma_div_is_ordered_by_denominator(a, 4, 100);
    vstd::arithmetic::div_mod::lemma_div_pos_is_pos(a, 400);
    vstd::arithmetic::div_mod::lemma_div_pos_is_pos(a, 100);
    if y == 9999 {
        assert(days_before_year(y) == 3651694);
    } else {
        vstd::arithmetic::div_mod::lemma_div_is_ordered(a, 9997, 4);
        vstd::arithmetic::div_mod::lemma_div_is_ordered(a, 9997, 400);
        assert(9997int / 4 == 2499);
        assert(9997int / 400 == 24);
    }
}

impl Date {
    /// The day named by year, month and day of month; nothing when the
    /// triple does not denote a real calendar day of year 1 through 9999.
    pub fn from_ymd(y: i64, m: i64, d: i64) -> (r: Option<Date>)
        ensures
            match r {
                Some(dt) => valid_ymd(y as int, m as int, d as int) && dt.day()
                    == day_number_of_ymd(y as int, m as int, d as int),
                None => !valid_ymd(y as int, m as int, d as int),
            },
    {
        if y < 1 || y > 9999 || m < 1 || m > 12 {
            return None;
        }
        let leap: bool = (y % 4 == 0 && y % 100 != 0) || y % 400 == 0;
        let dim: i64 = if m == 2 {
            if leap {
                29
            } else {
                28
            }
        } else if m == 4 || m == 6 || m == 9 || m == 11 {
            30
        } else {
            31
        };
        if d < 1 || d > dim {
            return None;
        }
        let base: i64 = match m {
            1 => 0,
            2 => 31,
            3 => 59,
            4 => 90,
            5 => 120,
            6 => 151,
            7 => 181,
            8 => 212,
            9 => 243,
            10 => 273,
            11 => 304,
            _ => 334,
        };
        let before_month: i64 = if m >= 3 && leap {
            base + 1
        } else {
            base
        };
        let a: i64 = y - 1;
        let days: i64 = 365 * a + a / 4 - a / 100 + a / 400 + before_month + d;
        proof {
            lemma_ymd_in_range(y as int, m as int, d as int);
        }
        Some(Date { days })
    }
}

} // verus!
