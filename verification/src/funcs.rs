//! The scalar function set: extraction, naming, ordinal conversion and
//! formatting over optional arguments. An absent argument always gives an
//! absent result, with nothing recorded; invalid calendar values go through
//! the context's error policy.

use vstd::prelude::*;

use crate::calendar::{calc_weekday, day_number, weekday_of};
use crate::context::{appended_invalid_warning, EvalContext, EvalError};
use crate::format::{
    check_valid_text, datetime_repr, datetime_repr_bytes, day_of_year_of, fmt_spec,
    format_datetime, is_valid_text, month_full_seq, push_month_full,
};
use crate::temporal::{DateTime, Duration};

verus! {

/// What routing an invalid calendar value through the error policy leaves
/// behind: under strict handling, the incorrect-value error itself and an
/// untouched context; otherwise an absent result and exactly one new warning.
pub open spec fn policy_outcome<T>(
    r: Result<Option<T>, EvalError>,
    before: EvalContext,
    after: EvalContext,
    repr: Seq<u8>,
) -> bool {
    if before.spec_strict_invalid_value() {
        &&& r matches Err(e) && e matches EvalError::IncorrectDatetimeValue { value } && value@
            == repr
        &&& after == before
    } else {
        &&& r == Ok::<Option<T>, EvalError>(None)
        &&& appended_invalid_warning(before, after, repr)
    }
}

/// Renders a date-time through a format string. A date that is not real goes
/// through the error policy; a format string that is not valid text is a hard
/// failure of its own class, never downgraded.
pub fn date_format(ctx: &mut EvalContext, t: &Option<DateTime>, layout: &Option<Vec<u8>>) -> (r:
    Result<Option<Vec<u8>>, EvalError>)
    requires
        t matches Some(d) ==> d.wf(),
    ensures
        t.is_none() || layout.is_none() ==> r == Ok::<Option<Vec<u8>>, EvalError>(None) && *final(ctx) == *old(ctx),
        t matches Some(d) ==> (layout matches Some(l) ==> {
            if d.spec_invalid_zero() {
                policy_outcome(r, *old(ctx), *final(ctx), datetime_repr(*d))
            } else if is_valid_text(l@) {
                (r matches Ok(o) && o matches Some(b) && b@ == fmt_spec(*d, l@)) && *final(ctx)
                    == *old(ctx)
            } else {
                r == Err::<Option<Vec<u8>>, EvalError>(EvalError::InvalidEncoding) && *final(ctx)
                    == *old(ctx)
            }
        }),
{
    match t {
        None => Ok(None),
        Some(d) => match layout {
            None => Ok(None),
            Some(l) => {
                if d.invalid_zero() {
                    let repr = datetime_repr_bytes(d);
                    match ctx.handle_invalid_time_value(
                        EvalError::IncorrectDatetimeValue { value: repr },
                    ) {
                        Ok(()) => Ok(None),
                        Err(e) => Err(e),
                    }
                } else if !check_valid_text(l) {
                    Err(EvalError::InvalidEncoding)
                } else {
                    Ok(Some(format_datetime(d, l)))
                }
            },
        },
    }
}

/// The weekday of a real date, Monday counted as 0 through Sunday as 6.
pub fn week_day(ctx: &mut EvalContext, t: &Option<DateTime>) -> (r: Result<Option<i64>, EvalError>)
    requires
        t matches Some(d) ==> d.wf(),
    ensures
        t.is_none() ==> r == Ok::<Option<i64>, EvalError>(None) && *final(ctx) == *old(ctx),
        t matches Some(d) ==> {
            if d.spec_invalid_zero() {
                policy_outcome(r, *old(ctx), *final(ctx), datetime_repr(*d))
            } else {
                r == Ok::<Option<i64>, EvalError>(
                    Some(weekday_of(d.year as int, d.month as int, d.day as int) as i64),
                ) && *final(ctx) == *old(ctx)
            }
        },
{
    match t {
        None => Ok(None),
        Some(d) => {
            if d.invalid_zero() {
                let repr = datetime_repr_bytes(d);
                match ctx.handle_invalid_time_value(
                    EvalError::IncorrectDatetimeValue { value: repr },
                ) {
                    Ok(()) => Ok(None),
                    Err(e) => Err(e),
                }
            } else {
                let wd = calc_weekday(d.year, d.month, d.day);
                Ok(Some(wd as i64))
            }
        },
    }
}

/// The day of the year of a real date, counted from 1.
pub fn day_of_year(ctx: &mut EvalContext, t: &Option<DateTime>) -> (r: Result<
    Option<i64>,
    EvalError,
>)
    requires
        t matches Some(d) ==> d.wf(),
    ensures
        t.is_none() ==> r == Ok::<Option<i64>, EvalError>(None) && *final(ctx) == *old(ctx),
        t matches Some(d) ==> {
            if d.spec_invalid_zero() {
                policy_outcome(r, *old(ctx), *final(ctx), datetime_repr(*d))
            } else {
                r == Ok::<Option<i64>, EvalError>(Some(day_of_year_of(*d) as i64)) && *final(ctx)
                    == *old(ctx)
            }
        },
{
    match t {
        None => Ok(None),
        Some(d) => {
            if d.invalid_zero() {
                let repr = datetime_repr_bytes(d);
                match ctx.handle_invalid_time_value(
                    EvalError::IncorrectDatetimeValue { value: repr },
                ) {
                    Ok(()) => Ok(None),
                    Err(e) => Err(e),
                }
            } else {
                let doy = crate::calendar::calc_day_of_year(d.year, d.month, d.day);
                Ok(Some(doy as i64))
            }
        },
    }
}

/// The day ordinal an argument holds, after the argument is narrowed to 32
/// bits the way a wrapping cast narrows it.
pub open spec fn ordinal_of_arg(v: int) -> int {
    v % 0x1_0000_0000
}

fn wrap_to_u32(v: i64) -> (r: u32)
    ensures
        r as int == ordinal_of_arg(v as int),
{
    if v >= 0 {
        ((v as u64) % 0x1_0000_0000) as u32
    } else {
        let u = (v + 0x4000_0000_0000_0000) + 0x4000_0000_0000_0000;
        proof {
            vstd::arithmetic::div_mod::lemma_mod_multiples_vanish(
                0x8000_0000,
                v as int,
                0x1_0000_0000,
            );
        }
        ((u as u64) % 0x1_0000_0000) as u32
    }
}

/// Converts a day ordinal to a calendar date. Total: ordinals outside the
/// calendar's range, including the ones a negative argument wraps to, give the
/// canonical zero date, never a failure or a warning.
pub fn from_days(ctx: &mut EvalContext, arg: &Option<i64>) -> (r: Result<
    Option<DateTime>,
    EvalError,
>)
    ensures
        *final(ctx) == *old(ctx),
        arg.is_none() ==> r == Ok::<Option<DateTime>, EvalError>(None),
        arg matches Some(v) ==> (r matches Ok(o) && o matches Some(t) && t.wf() && t.hour == 0
            && t.minute == 0 && t.second == 0 && t.micro == 0 && (ordinal_of_arg(v as int) <= 365
            || ordinal_of_arg(v as int) >= 3652425 ==> t.year == 0 && t.month == 0 && t.day == 0)
            && (366 <= ordinal_of_arg(v as int) < 3652425 ==> t.spec_valid() && day_number(
            t.year as int,
            t.month as int,
            t.day as int,
        ) == ordinal_of_arg(v as int))),
{
    match arg {
        None => Ok(None),
        Some(v) => {
            let n = wrap_to_u32(*v);
            Ok(Some(DateTime::from_day_ordinal(n)))
        },
    }
}

/// The exact value each context-free extractor returns: a function of the
/// argument alone, so two calls on one input give bit-identical results and
/// touch no state.
pub open spec fn month_spec(t: Option<DateTime>) -> Result<Option<i64>, EvalError> {
    match t {
        None => Ok(None),
        Some(d) => Ok(Some(d.month as i64)),
    }
}

pub open spec fn hour_spec(t: Option<Duration>) -> Result<Option<i64>, EvalError> {
    match t {
        None => Ok(None),
        Some(d) => Ok(Some(d.hours as i64)),
    }
}

pub open spec fn minute_spec(t: Option<Duration>) -> Result<Option<i64>, EvalError> {
    match t {
        None => Ok(None),
        Some(d) => Ok(Some(d.minutes as i64)),
    }
}

pub open spec fn second_spec(t: Option<Duration>) -> Result<Option<i64>, EvalError> {
    match t {
        None => Ok(None),
        Some(d) => Ok(Some(d.seconds as i64)),
    }
}

pub open spec fn micro_second_spec(t: Option<Duration>) -> Result<Option<i64>, EvalError> {
    match t {
        None => Ok(None),
        Some(d) => Ok(Some(d.micros as i64)),
    }
}

/// The month field of a date-time; a zero month passes through as 0.
pub fn month(t: &Option<DateTime>) -> (r: Result<Option<i64>, EvalError>)
    ensures
        r == month_spec(*t),
{
    match t {
        None => Ok(None),
        Some(d) => Ok(Some(d.month as i64)),
    }
}

/// The hours of a duration's magnitude; may exceed 23.
pub fn hour(t: &Option<Duration>) -> (r: Result<Option<i64>, EvalError>)
    ensures
        r == hour_spec(*t),
{
    match t {
        None => Ok(None),
        Some(d) => Ok(Some(d.hours as i64)),
    }
}

/// The minutes of a duration's magnitude.
pub fn minute(t: &Option<Duration>) -> (r: Result<Option<i64>, EvalError>)
    ensures
        r == minute_spec(*t),
{
    match t {
        None => Ok(None),
        Some(d) => Ok(Some(d.minutes as i64)),
    }
}

/// The seconds of a duration's magnitude.
pub fn second(t: &Option<Duration>) -> (r: Result<Option<i64>, EvalError>)
    ensures
        r == second_spec(*t),
{
    match t {
        None => Ok(None),
        Some(d) => Ok(Some(d.seconds as i64)),
    }
}

/// The microseconds of a duration's magnitude.
pub fn micro_second(t: &Option<Duration>) -> (r: Result<Option<i64>, EvalError>)
    ensures
        r == micro_second_spec(*t),
{
    match t {
        None => Ok(None),
        Some(d) => Ok(Some(d.micros as i64)),
    }
}

/// The year of a date-time. A zero date gives 0 outright unless zero dates are
/// flagged invalid, in which case the error policy decides.
pub fn year(ctx: &mut EvalContext, t: &Option<DateTime>) -> (r: Result<Option<i64>, EvalError>)
    requires
        t matches Some(d) ==> d.wf(),
    ensures
        t.is_none() ==> r == Ok::<Option<i64>, EvalError>(None) && *final(ctx) == *old(ctx),
        t matches Some(d) ==> {
            if !d.spec_is_zero() {
                r == Ok::<Option<i64>, EvalError>(Some(d.year as i64)) && *final(ctx) == *old(ctx)
            } else if !old(ctx).sql_mode.no_zero_date {
                r == Ok::<Option<i64>, EvalError>(Some(0)) && *final(ctx) == *old(ctx)
            } else {
                policy_outcome(r, *old(ctx), *final(ctx), datetime_repr(*d))
            }
        },
{
    match t {
        None => Ok(None),
        Some(d) => {
            if d.is_zero() {
                if ctx.sql_mode.no_zero_date {
                    let repr = datetime_repr_bytes(d);
                    match ctx.handle_invalid_time_value(
                        EvalError::IncorrectDatetimeValue { value: repr },
                    ) {
                        Ok(()) => Ok(None),
                        Err(e) => Err(e),
                    }
                } else {
                    Ok(Some(0))
                }
            } else {
                Ok(Some(d.year as i64))
            }
        },
    }
}

/// The day of the month of a date-time, branching on the zero date exactly as
/// `year` does.
pub fn day_of_month(ctx: &mut EvalContext, t: &Option<DateTime>) -> (r: Result<
    Option<i64>,
    EvalError,
>)
    requires
        t matches Some(d) ==> d.wf(),
    ensures
        t.is_none() ==> r == Ok::<Option<i64>, EvalError>(None) && *final(ctx) == *old(ctx),
        t matches Some(d) ==> {
            if !d.spec_is_zero() {
                r == Ok::<Option<i64>, EvalError>(Some(d.day as i64)) && *final(ctx) == *old(ctx)
            } else if !old(ctx).sql_mode.no_zero_date {
                r == Ok::<Option<i64>, EvalError>(Some(0)) && *final(ctx) == *old(ctx)
            } else {
                policy_outcome(r, *old(ctx), *final(ctx), datetime_repr(*d))
            }
        },
{
    match t {
        None => Ok(None),
        Some(d) => {
            if d.is_zero() {
                if ctx.sql_mode.no_zero_date {
                    let repr = datetime_repr_bytes(d);
                    match ctx.handle_invalid_time_value(
                        EvalError::IncorrectDatetimeValue { value: repr },
                    ) {
                        Ok(()) => Ok(None),
                        Err(e) => Err(e),
                    }
                } else {
                    Ok(Some(0))
                }
            } else {
                Ok(Some(d.day as i64))
            }
        },
    }
}

/// The English name of a date-time's month. A zero date under the zero-date
/// flag goes through the error policy; a zero month otherwise gives an absent
/// result with no warning.
pub fn month_name(ctx: &mut EvalContext, t: &Option<DateTime>) -> (r: Result<
    Option<Vec<u8>>,
    EvalError,
>)
    requires
        t matches Some(d) ==> d.wf(),
    ensures
        t.is_none() ==> r == Ok::<Option<Vec<u8>>, EvalError>(None) && *final(ctx) == *old(ctx),
        t matches Some(d) ==> {
            if d.spec_is_zero() && old(ctx).sql_mode.no_zero_date {
                policy_outcome(r, *old(ctx), *final(ctx), datetime_repr(*d))
            } else if 1 <= d.month <= 12 {
                (r matches Ok(o) && o matches Some(b) && b@ == month_full_seq(d.month as int))
                    && *final(ctx) == *old(ctx)
            } else {
                r == Ok::<Option<Vec<u8>>, EvalError>(None) && *final(ctx) == *old(ctx)
            }
        },
{
    match t {
        None => Ok(None),
        Some(d) => {
            if d.is_zero() && ctx.sql_mode.no_zero_date {
                let repr = datetime_repr_bytes(d);
                match ctx.handle_invalid_time_value(
                    EvalError::IncorrectDatetimeValue { value: repr },
                ) {
                    Ok(()) => Ok(None),
                    Err(e) => Err(e),
                }
            } else if 1 <= d.month && d.month <= 12 {
                let mut name: Vec<u8> = Vec::new();
                push_month_full(&mut name, d.month);
                proof {
                    assert(name@ =~= month_full_seq(d.month as int));
                }
                Ok(Some(name))
            } else {
                Ok(None)
            }
        },
    }
}

} // verus!
