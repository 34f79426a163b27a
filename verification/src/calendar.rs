//! Proleptic calendar arithmetic: leap years, day counts within a year, the
//! day ordinal (days counted from the calendar's fixed origin, with the date
//! 0000-01-01 holding ordinal 1), and the conversion from an ordinal back to a
//! calendar date. Year 0 is counted as a common year.

use vstd::prelude::*;

verus! {

/// Leap years of the proleptic Gregorian calendar; year 0 is not counted as leap.
pub open spec fn is_leap_year(y: int) -> bool {
    y > 0 && y % 4 == 0 && (y % 100 != 0 || y % 400 == 0)
}

pub open spec fn days_in_year(y: int) -> int {
    if is_leap_year(y) {
        366
    } else {
        365
    }
}

/// Days held by the years 0, 1, ..., y - 1 together: the closed form counts
/// the leap years among 1 ..= y - 1.
pub open spec fn days_before_year(y: int) -> int
    recommends
        y >= 0,
{
    if y <= 0 {
        0
    } else {
        365 * y + (y - 1) / 4 - (y - 1) / 100 + (y - 1) / 400
    }
}

pub open spec fn days_in_month(y: int, m: int) -> int
    recommends
        1 <= m <= 12,
{
    if m == 2 {
        if is_leap_year(y) {
            29
        } else {
            28
        }
    } else if m == 4 || m == 6 || m == 9 || m == 11 {
        30
    } else {
        31
    }
}

/// Days held by the months 1, ..., m - 1 of year y together.
pub open spec fn days_before_month(y: int, m: int) -> int
    recommends
        1 <= m <= 13,
    decreases m,
{
    if m <= 1 {
        0
    } else {
        days_before_month(y, m - 1) + days_in_month(y, m - 1)
    }
}

/// The day ordinal of a calendar date: 0000-01-01 holds ordinal 1.
pub open spec fn day_number(y: int, m: int, d: int) -> int {
    days_before_year(y) + days_before_month(y, m) + d
}

/// The weekday of a date, counted with Monday as 0 through Sunday as 6.
pub open spec fn weekday_of(y: int, m: int, d: int) -> int {
    (day_number(y, m, d) + 5) % 7
}

/// A date whose fields a calendar really holds: month in range and the day
/// within the month's length.
pub open spec fn valid_date(y: int, m: int, d: int) -> bool {
    &&& 0 <= y <= 9999
    &&& 1 <= m <= 12
    &&& 1 <= d <= days_in_month(y, m)
}

proof fn lemma_div_step(y: int, d: int)
    requires
        y >= 1,
        d >= 1,
    ensures
        y / d - (y - 1) / d == if y % d == 0 {
            1int
        } else {
            0int
        },
{
    vstd::arithmetic::div_mod::lemma_fundamental_div_mod(y, d);
    if y % d == 0 {
        assert((y / d - 1) * d + (d - 1) == d * (y / d) - 1) by (nonlinear_arith);
        vstd::arithmetic::div_mod::lemma_fundamental_div_mod_converse(y - 1, d, y / d - 1, d - 1);
    } else {
        assert((y / d) * d + (y % d - 1) == d * (y / d) + y % d - 1) by (nonlinear_arith);
        vstd::arithmetic::div_mod::lemma_fundamental_div_mod_converse(y - 1, d, y / d, y % d - 1);
    }
}

/// Each year adds its own length to the running day count.
pub proof fn lemma_days_before_year_step(y: int)
    requires
        y >= 0,
    ensures
        days_before_year(y + 1) == days_before_year(y) + days_in_year(y),
{
    if y >= 1 {
        lemma_div_step(y, 4);
        lemma_div_step(y, 100);
        lemma_div_step(y, 400);
        if y % 400 == 0 {
            vstd::arithmetic::div_mod::lemma_fundamental_div_mod(y, 400);
            vstd::arithmetic::div_mod::lemma_mod_multiples_basic(4 * (y / 400), 100);
            assert(y == 4 * (y / 400) * 100);
            assert(y % 100 == 0);
        }
        if y % 100 == 0 {
            vstd::arithmetic::div_mod::lemma_fundamental_div_mod(y, 100);
            vstd::arithmetic::div_mod::lemma_mod_multiples_basic(25 * (y / 100), 4);
            assert(y == 25 * (y / 100) * 4);
            assert(y % 4 == 0);
        }
    }
}

/// The day count never falls as years advance, and each year adds at least 365
/// and at most 366 days.
pub proof fn lemma_days_before_year_bounds(a: int, b: int)
    requires
        0 <= a <= b,
    ensures
        days_before_year(a) + 365 * (b - a) <= days_before_year(b) <= days_before_year(a) + 366
            * (b - a),
    decreases b - a,
{
    if a < b {
        lemma_days_before_year_step(b - 1);
        lemma_days_before_year_bounds(a, b - 1);
    }
}

/// The months of a year hold exactly the year's days.
pub proof fn lemma_days_before_month_full(y: int)
    ensures
        days_before_month(y, 13) == days_in_year(y),
{
    reveal_with_fuel(days_before_month, 13);
}

/// The months before month `m` hold between 0 and 31 * (m - 1) days, and at
/// least 31 once January has passed.
pub proof fn lemma_days_before_month_bounds(y: int, m: int)
    requires
        1 <= m <= 13,
    ensures
        0 <= days_before_month(y, m) <= 31 * (m - 1),
        m >= 2 ==> days_before_month(y, m) >= 31,
    decreases m,
{
    if m >= 2 {
        lemma_days_before_month_bounds(y, m - 1);
    }
}

/// The day count within a year never falls as months advance.
pub proof fn lemma_days_before_month_mono(y: int, a: int, b: int)
    requires
        1 <= a <= b <= 13,
    ensures
        days_before_month(y, a) <= days_before_month(y, b),
    decreases b - a,
{
    if a < b {
        lemma_days_before_month_mono(y, a, b - 1);
    }
}

/// Distinct real dates hold distinct day ordinals: the ordinal determines the
/// date.
pub proof fn lemma_day_number_injective(y1: int, m1: int, d1: int, y2: int, m2: int, d2: int)
    requires
        valid_date(y1, m1, d1),
        valid_date(y2, m2, d2),
        day_number(y1, m1, d1) == day_number(y2, m2, d2),
    ensures
        y1 == y2 && m1 == m2 && d1 == d2,
{
    lemma_day_number_year_bounds(y1, m1, d1);
    lemma_day_number_year_bounds(y2, m2, d2);
    if y1 < y2 {
        lemma_days_before_year_bounds(y1 + 1, y2);
        assert(false);
    }
    if y2 < y1 {
        lemma_days_before_year_bounds(y2 + 1, y1);
        assert(false);
    }
    if m1 < m2 {
        lemma_days_before_month_mono(y1, m1 + 1, m2);
        assert(false);
    }
    if m2 < m1 {
        lemma_days_before_month_mono(y1, m2 + 1, m1);
        assert(false);
    }
}

/// A real date's ordinal lies strictly between its year's first ordinal minus
/// one and its successor year's first ordinal.
proof fn lemma_day_number_year_bounds(y: int, m: int, d: int)
    requires
        valid_date(y, m, d),
    ensures
        days_before_year(y) < day_number(y, m, d) <= days_before_year(y + 1),
{
    lemma_days_before_month_bounds(y, m);
    lemma_days_before_month_mono(y, m + 1, 13);
    lemma_days_before_month_full(y);
    lemma_days_before_year_step(y);
    assert(days_before_month(y, m + 1) == days_before_month(y, m) + days_in_month(y, m));
}

/// The week number and week-year that all the week directives of the
/// formatter share: weeks start on Monday, week 1 is the first week with four
/// or more of its days in the year, and the first days of January may fall in
/// the last week of the year before. For dates of year 0 that fall in the
/// previous year's week, the week-year wraps to 4294967295 rather than
/// clamping; this mirrors the observed behavior and is kept deliberately.
pub open spec fn week_calc(y: int, m: int, d: int) -> (int, int) {
    let daynr = day_number(y, m, d);
    let first0 = day_number(y, 1, 1);
    let wd0 = (first0 + 5) % 7;
    let adjust = m == 1 && d <= 7 - wd0;
    let wy = if adjust {
        if y == 0 {
            0xFFFF_FFFF as int
        } else {
            y - 1
        }
    } else {
        y
    };
    let first = if adjust {
        first0 - days_in_year(wy)
    } else {
        first0
    };
    let wd = if adjust {
        (wd0 + 53 * 7 - days_in_year(wy)) % 7
    } else {
        wd0
    };
    let days = if wd >= 4 {
        daynr - (first + 7 - wd)
    } else {
        daynr - (first - wd)
    };
    if days >= 364 {
        let wd2 = (wd + days_in_year(wy)) % 7;
        if wd2 < 4 {
            (1int, wy + 1)
        } else {
            (days / 7 + 1, wy)
        }
    } else {
        (days / 7 + 1, wy)
    }
}

pub open spec fn week_of(y: int, m: int, d: int) -> int {
    week_calc(y, m, d).0
}

pub open spec fn week_year_of(y: int, m: int, d: int) -> int {
    week_calc(y, m, d).1
}

/// Computes the shared week number and week-year of a real date.
pub fn calc_week(y: u32, m: u32, d: u32) -> (r: (u32, u32))
    requires
        valid_date(y as int, m as int, d as int),
    ensures
        r.0 as int == week_of(y as int, m as int, d as int),
        r.1 as int == week_year_of(y as int, m as int, d as int),
{
    let daynr = calc_day_number(y, m, d) as i64;
    let first0 = calc_day_number(y, 1, 1) as i64;
    let wd0 = calc_weekday(y, 1, 1);
    let adjust = m == 1 && d <= 7 - wd0;
    let wy: u32 = if adjust {
        if y == 0 {
            0xFFFF_FFFF
        } else {
            y - 1
        }
    } else {
        y
    };
    let dprev = year_days(wy);
    let first: i64 = if adjust {
        first0 - dprev as i64
    } else {
        first0
    };
    let wd: u32 = if adjust {
        (wd0 + 371 - dprev) % 7
    } else {
        wd0
    };
    proof {
        lemma_days_before_month_bounds(y as int, m as int);
        lemma_days_before_month_bounds(y as int, 2);
        if m >= 2 {
            assert(days_before_month(y as int, m as int) >= 31);
        }
    }
    let days: i64 = if wd >= 4 {
        daynr - (first + 7 - wd as i64)
    } else {
        daynr - (first - wd as i64)
    };
    let daysu = days as u32;
    if days >= 364 {
        let wd2 = (wd + year_days(wy)) % 7;
        if wd2 < 4 {
            proof {
                if adjust && y == 0 {
                    assert(day_number(0, 1, 1) == 1);
                    assert(d == 1);
                    assert(false);
                }
            }
            return (1, wy + 1);
        }
    }
    (daysu / 7 + 1, wy)
}

/// Whether a year is leap, decided in executable code.
pub fn leap_year(y: u32) -> (r: bool)
    ensures
        r == is_leap_year(y as int),
{
    y > 0 && y % 4 == 0 && (y % 100 != 0 || y % 400 == 0)
}

pub fn year_days(y: u32) -> (r: u32)
    ensures
        r as int == days_in_year(y as int),
{
    if leap_year(y) {
        366
    } else {
        365
    }
}

pub fn month_days(y: u32, m: u32) -> (r: u32)
    requires
        1 <= m <= 12,
    ensures
        r as int == days_in_month(y as int, m as int),
{
    if m == 2 {
        if leap_year(y) {
            29
        } else {
            28
        }
    } else if m == 4 || m == 6 || m == 9 || m == 11 {
        30
    } else {
        31
    }
}

/// The day ordinal of a date, computed by summing whole years, then whole
/// months, then the day.
pub fn calc_day_number(y: u32, m: u32, d: u32) -> (r: u32)
    requires
        y <= 9999,
        1 <= m <= 12,
        1 <= d <= 31,
    ensures
        r as int == day_number(y as int, m as int, d as int),
        r <= 3660006,
{
    let mut acc: u32 = 0;
    let mut yy: u32 = 0;
    while yy < y
        invariant
            yy <= y,
            y <= 9999,
            acc as int == days_before_year(yy as int),
        decreases y - yy,
    {
        proof {
            lemma_days_before_year_step(yy as int);
            lemma_days_before_year_bounds(0, yy as int);
        }
        acc = acc + year_days(yy);
        yy = yy + 1;
    }
    proof {
        lemma_days_before_year_bounds(0, y as int);
    }
    let mut dbm: u32 = 0;
    let mut mm: u32 = 1;
    while mm < m
        invariant
            1 <= mm <= m,
            m <= 12,
            dbm as int == days_before_month(y as int, mm as int),
            dbm <= 31 * (mm - 1),
        decreases m - mm,
    {
        dbm = dbm + month_days(y, mm);
        mm = mm + 1;
    }
    acc + dbm + d
}

/// The day of the year, counted from 1.
pub fn calc_day_of_year(y: u32, m: u32, d: u32) -> (r: u32)
    requires
        y <= 9999,
        1 <= m <= 12,
        1 <= d <= 31,
    ensures
        r as int == days_before_month(y as int, m as int) + d,
{
    let mut dbm: u32 = 0;
    let mut mm: u32 = 1;
    while mm < m
        invariant
            1 <= mm <= m,
            m <= 12,
            dbm as int == days_before_month(y as int, mm as int),
            dbm <= 31 * (mm - 1),
        decreases m - mm,
    {
        dbm = dbm + month_days(y, mm);
        mm = mm + 1;
    }
    dbm + d
}

/// The weekday of a date, Monday counted as 0.
pub fn calc_weekday(y: u32, m: u32, d: u32) -> (r: u32)
    requires
        y <= 9999,
        1 <= m <= 12,
        1 <= d <= 31,
    ensures
        r as int == weekday_of(y as int, m as int, d as int),
{
    (calc_day_number(y, m, d) + 5) % 7
}

/// The calendar date holding a given day ordinal. Ordinals below 366 and at or
/// above 3652425 (the first day of year 10000) map to the all-zero date; every
/// other ordinal maps to the unique real date that holds it.
pub fn date_from_day_number(n: u32) -> (r: (u32, u32, u32))
    ensures
        n <= 365 || n >= 3652425 ==> r == (0u32, 0u32, 0u32),
        366 <= n < 3652425 ==> valid_date(r.0 as int, r.1 as int, r.2 as int) && day_number(
            r.0 as int,
            r.1 as int,
            r.2 as int,
        ) == n as int,
{
    if n <= 365 || n >= 3652425 {
        return (0, 0, 0);
    }
    let mut year: u32 = 0;
    let mut doy: u32 = n;
    while doy > year_days(year)
        invariant
            366 <= n < 3652425,
            1 <= doy,
            doy as int == n - days_before_year(year as int),
            year <= 9999,
        decreases doy,
    {
        let diy = year_days(year);
        proof {
            lemma_days_before_year_step(year as int);
            // After the step the remaining days still reach past the next January 1,
            // so the next year stays below 10000.
            if year as int + 1 >= 10000 {
                lemma_days_before_year_bounds(10000, year as int + 1);
                assert(days_before_year(10000) == 3652424);
                assert(days_before_year(year as int + 1) >= 3652424);
                assert(false);
            }
        }
        doy = doy - diy;
        year = year + 1;
    }
    proof {
        lemma_days_before_month_full(year as int);
    }
    let mut m: u32 = 1;
    let mut rem: u32 = doy;
    while rem > month_days(year, m)
        invariant
            1 <= m <= 12,
            1 <= rem,
            rem as int == doy - days_before_month(year as int, m as int),
            doy as int <= days_in_year(year as int),
            days_before_month(year as int, 13) == days_in_year(year as int),
            year <= 9999,
            doy as int == n - days_before_year(year as int),
            366 <= n < 3652425,
        decreases 13 - m,
    {
        proof {
            if m == 12 {
                assert(days_before_month(year as int, 13) == days_before_month(year as int, 12)
                    + days_in_month(year as int, 12));
                assert(false);
            }
        }
        rem = rem - month_days(year, m);
        m = m + 1;
    }
    (year, m, rem)
}

} // verus!
