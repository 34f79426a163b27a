//! The temporal value model: a calendar date-time with its zero-date and
//! invalid-date predicates, and a signed time-of-day value whose magnitude may
//! exceed a day, rounded to a fractional-second precision when built.

use vstd::prelude::*;

use crate::calendar::{date_from_day_number, day_number, days_in_month, month_days};

verus! {

/// A calendar date-time. A zero month or day marks the zero-date sentinel and
/// its partial forms, so the fields themselves carry no validity promise
/// beyond the bounds of `wf`.
#[derive(Clone, Copy, PartialEq, Eq, Structural, Debug)]
pub struct DateTime {
    pub year: u32,
    pub month: u32,
    pub day: u32,
    pub hour: u32,
    pub minute: u32,
    pub second: u32,
    pub micro: u32,
}

impl DateTime {
    /// Field bounds that any decoded date-time satisfies; zero months and days
    /// stay admissible.
    pub open spec fn wf(self) -> bool {
        &&& self.year <= 9999
        &&& self.month <= 12
        &&& self.day <= 31
        &&& self.hour <= 23
        &&& self.minute <= 59
        &&& self.second <= 59
        &&& self.micro <= 999999
    }

    /// The zero-date sentinel: all calendar fields zero.
    pub open spec fn spec_is_zero(self) -> bool {
        self.year == 0 && self.month == 0 && self.day == 0
    }

    /// Zero or otherwise not a real calendar date: a zero month or day, or a
    /// day past the month's length.
    pub open spec fn spec_invalid_zero(self) -> bool {
        !(1 <= self.month <= 12 && 1 <= self.day <= days_in_month(
            self.year as int,
            self.month as int,
        ))
    }

    pub open spec fn spec_valid(self) -> bool {
        self.wf() && !self.spec_invalid_zero()
    }

    pub fn new(year: u32, month: u32, day: u32, hour: u32, minute: u32, second: u32, micro: u32) -> (t: DateTime)
        requires
            year <= 9999,
            month <= 12,
            day <= 31,
            hour <= 23,
            minute <= 59,
            second <= 59,
            micro <= 999999,
        ensures
            t == (DateTime { year, month, day, hour, minute, second, micro }),
    {
        DateTime { year, month, day, hour, minute, second, micro }
    }

    pub fn is_zero(&self) -> (r: bool)
        ensures
            r == self.spec_is_zero(),
    {
        self.year == 0 && self.month == 0 && self.day == 0
    }

    pub fn invalid_zero(&self) -> (r: bool)
        ensures
            r == self.spec_invalid_zero(),
    {
        if 1 <= self.month && self.month <= 12 {
            !(1 <= self.day && self.day <= month_days(self.year, self.month))
        } else {
            true
        }
    }

    /// The date holding a given day ordinal, as a date-time with a zero time
    /// part. Ordinals outside the calendar's range give the zero date.
    pub fn from_day_ordinal(n: u32) -> (t: DateTime)
        ensures
            t.wf(),
            t.hour == 0 && t.minute == 0 && t.second == 0 && t.micro == 0,
            n <= 365 || n >= 3652425 ==> t.spec_is_zero() && t.month == 0 && t.day == 0,
            366 <= n < 3652425 ==> t.spec_valid() && day_number(
                t.year as int,
                t.month as int,
                t.day as int,
            ) == n as int,
    {
        let (year, month, day) = date_from_day_number(n);
        DateTime { year, month, day, hour: 0, minute: 0, second: 0, micro: 0 }
    }
}

/// A signed time-of-day or interval value. The components describe the
/// magnitude; `neg` carries the sign.
#[derive(Clone, Copy, PartialEq, Eq, Structural, Debug)]
pub struct Duration {
    pub neg: bool,
    pub hours: u32,
    pub minutes: u32,
    pub seconds: u32,
    pub micros: u32,
}

/// Powers of ten, for fractional-second scales.
pub open spec fn pow10(k: int) -> int
    decreases k,
{
    if k <= 0 {
        1
    } else {
        10 * pow10(k - 1)
    }
}

/// The fractional nanoseconds rounded half-up to `fsp` digits, still counted
/// in nanoseconds.
pub open spec fn rounded_nanos(nanos: int, fsp: int) -> int {
    let p = pow10(9 - fsp);
    ((nanos + p / 2) / p) * p
}

pub open spec fn duration_total_seconds(d: Duration) -> int {
    d.hours * 3600 + d.minutes * 60 + d.seconds
}

impl Duration {
    /// Component bounds of a normalized duration; the whole magnitude stays
    /// within the range a TIME value may hold.
    pub open spec fn wf(self) -> bool {
        &&& self.hours <= 839
        &&& self.minutes <= 59
        &&& self.seconds <= 59
        &&& self.micros <= 999999
    }

    /// Builds a duration from its components, rounding the fractional part
    /// half-up to `fsp` digits and carrying a full second onward when the
    /// rounding overflows the fraction.
    pub fn new(neg: bool, hours: u32, minutes: u32, seconds: u32, nanos: u32, fsp: u8) -> (d:
        Duration)
        requires
            hours <= 838,
            minutes <= 59,
            seconds <= 59,
            nanos <= 999_999_999,
            fsp <= 6,
        ensures
            d.wf(),
            d.neg == neg,
            rounded_nanos(nanos as int, fsp as int) < 1_000_000_000 ==> {
                &&& d.hours == hours
                &&& d.minutes == minutes
                &&& d.seconds == seconds
                &&& d.micros as int == rounded_nanos(nanos as int, fsp as int) / 1000
            },
            rounded_nanos(nanos as int, fsp as int) == 1_000_000_000 ==> {
                &&& d.micros == 0
                &&& duration_total_seconds(d) == hours * 3600 + minutes * 60 + seconds + 1
            },
    {
        let rn = round_fraction(nanos, fsp);
        if rn < 1_000_000_000 {
            Duration { neg, hours, minutes, seconds, micros: rn / 1000 }
        } else {
            let mut h = hours;
            let mut m = minutes;
            let mut s = seconds + 1;
            if s == 60 {
                s = 0;
                m = m + 1;
                if m == 60 {
                    m = 0;
                    h = h + 1;
                }
            }
            Duration { neg, hours: h, minutes: m, seconds: s, micros: 0 }
        }
    }
}

/// Rounds fractional nanoseconds half-up to `fsp` digits.
fn round_fraction(nanos: u32, fsp: u8) -> (rn: u32)
    requires
        nanos <= 999_999_999,
        fsp <= 6,
    ensures
        rn as int == rounded_nanos(nanos as int, fsp as int),
        rn <= 1_000_000_000,
{
    proof {
        reveal_with_fuel(pow10, 10);
        assert(pow10(9) == 1_000_000_000);
        assert(pow10(8) == 100_000_000);
        assert(pow10(7) == 10_000_000);
        assert(pow10(6) == 1_000_000);
        assert(pow10(5) == 100_000);
        assert(pow10(4) == 10_000);
        assert(pow10(3) == 1_000);
    }
    if fsp == 0 {
        (nanos + 500_000_000) / 1_000_000_000 * 1_000_000_000
    } else if fsp == 1 {
        (nanos + 50_000_000) / 100_000_000 * 100_000_000
    } else if fsp == 2 {
        (nanos + 5_000_000) / 10_000_000 * 10_000_000
    } else if fsp == 3 {
        (nanos + 500_000) / 1_000_000 * 1_000_000
    } else if fsp == 4 {
        (nanos + 50_000) / 100_000 * 100_000
    } else if fsp == 5 {
        (nanos + 5_000) / 10_000 * 10_000
    } else {
        (nanos + 500) / 1_000 * 1_000
    }
}

} // verus!
