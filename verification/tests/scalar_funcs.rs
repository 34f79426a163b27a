use temporal_fns::context::{EvalContext, EvalError, SqlMode, ERR_TRUNCATE_WRONG_VALUE};
use temporal_fns::funcs::{
    day_of_month, day_of_year, from_days, hour, micro_second, minute, month, month_name, second,
    week_day, year,
};
use temporal_fns::temporal::{DateTime, Duration};

fn lenient_mode() -> SqlMode {
    SqlMode { no_zero_date: false, strict_all_tables: false, strict_trans_tables: false }
}

fn default_ctx() -> EvalContext {
    EvalContext::new(lenient_mode(), false, false)
}

fn dt(y: u32, mo: u32, d: u32, h: u32, mi: u32, s: u32, us: u32) -> DateTime {
    DateTime::new(y, mo, d, h, mi, s, us)
}

fn date(y: u32, mo: u32, d: u32) -> DateTime {
    dt(y, mo, d, 0, 0, 0, 0)
}

#[test]
fn test_week_day() {
    let cases = vec![
        (date(2018, 12, 3), Some(0i64)),
        (date(2018, 12, 4), Some(1i64)),
        (date(2018, 12, 5), Some(2i64)),
        (date(2018, 12, 6), Some(3i64)),
        (date(2018, 12, 7), Some(4i64)),
        (date(2018, 12, 8), Some(5i64)),
        (date(2018, 12, 9), Some(6i64)),
        (date(0, 0, 0), None),
        (date(2018, 12, 0), None),
        (date(2018, 0, 3), None),
    ];
    let mut ctx = default_ctx();
    for (arg, exp) in cases {
        let output = week_day(&mut ctx, &Some(arg)).unwrap();
        assert_eq!(output, exp);
    }
    let output = week_day(&mut ctx, &None).unwrap();
    assert_eq!(output, None);
}

#[test]
fn test_day_of_year() {
    let cases = vec![
        (dt(2018, 11, 11, 0, 0, 0, 0), Some(315i64)),
        (dt(2018, 11, 12, 0, 0, 0, 0), Some(316i64)),
        (dt(2018, 11, 30, 0, 0, 0, 0), Some(334i64)),
        (dt(2018, 12, 31, 0, 0, 0, 0), Some(365i64)),
        (dt(2016, 12, 31, 0, 0, 0, 0), Some(366i64)),
        (dt(0, 0, 0, 0, 0, 0, 0), None),
        (dt(2018, 11, 0, 0, 0, 0, 0), None),
        (dt(2018, 0, 11, 0, 0, 0, 0), None),
    ];
    let mut ctx = default_ctx();
    for (arg, exp) in cases {
        let output = day_of_year(&mut ctx, &Some(arg)).unwrap();
        assert_eq!(output, exp);
    }
    let output = day_of_year(&mut ctx, &None).unwrap();
    assert_eq!(output, None);
}

#[test]
fn test_from_days() {
    let cases: Vec<(Option<i64>, Option<DateTime>)> = vec![
        (Some(-140), Some(date(0, 0, 0))),
        (Some(140), Some(date(0, 0, 0))),
        (Some(735_000), Some(date(2012, 5, 12))),
        (Some(735_030), Some(date(2012, 6, 11))),
        (Some(735_130), Some(date(2012, 9, 19))),
        (Some(734_909), Some(date(2012, 2, 11))),
        (Some(734_878), Some(date(2012, 1, 11))),
        (Some(734_927), Some(date(2012, 2, 29))),
        (Some(734_634), Some(date(2011, 5, 12))),
        (Some(734_664), Some(date(2011, 6, 11))),
        (Some(734_764), Some(date(2011, 9, 19))),
        (Some(734_544), Some(date(2011, 2, 11))),
        (Some(734_513), Some(date(2011, 1, 11))),
        (Some(3_652_424), Some(date(9999, 12, 31))),
        (Some(3_652_425), Some(date(0, 0, 0))),
        (None, None),
    ];
    let mut ctx = default_ctx();
    for (arg, exp) in cases {
        let output = from_days(&mut ctx, &arg).unwrap();
        assert_eq!(output, exp);
    }
    // The first in-range ordinal and the last out-of-range one on each side.
    assert_eq!(from_days(&mut ctx, &Some(365)).unwrap(), Some(date(0, 0, 0)));
    assert_eq!(from_days(&mut ctx, &Some(366)).unwrap(), Some(date(1, 1, 1)));
    assert_eq!(ctx.warning_count(), 0);
}

#[test]
fn test_month() {
    let cases = vec![
        (Some(dt(0, 0, 0, 0, 0, 0, 0)), Some(0i64)),
        (Some(dt(2018, 1, 1, 1, 1, 1, 0)), Some(1i64)),
        (Some(dt(2018, 2, 1, 1, 1, 1, 0)), Some(2i64)),
        (Some(dt(2018, 3, 1, 1, 1, 1, 0)), Some(3i64)),
        (Some(dt(2018, 4, 1, 1, 1, 1, 0)), Some(4i64)),
        (Some(dt(2018, 5, 1, 1, 1, 1, 0)), Some(5i64)),
        (Some(dt(2018, 6, 1, 1, 1, 1, 0)), Some(6i64)),
        (Some(dt(2018, 7, 1, 1, 1, 1, 0)), Some(7i64)),
        (Some(dt(2018, 8, 1, 1, 1, 1, 0)), Some(8i64)),
        (Some(dt(2018, 9, 1, 1, 1, 1, 0)), Some(9i64)),
        (Some(dt(2018, 10, 1, 1, 1, 1, 0)), Some(10i64)),
        (Some(dt(2018, 11, 1, 1, 1, 1, 0)), Some(11i64)),
        (Some(dt(2018, 12, 1, 1, 1, 1, 0)), Some(12i64)),
        (None, None),
    ];
    for (time, expect) in cases {
        let output = month(&time).unwrap();
        assert_eq!(output, expect);
    }
}

#[test]
fn test_hour_min_sec_micro_sec() {
    // (negative, hours, minutes, seconds, fractional nanoseconds, precision,
    //  expected hour, minute, second, microsecond)
    let cases: Vec<(bool, u32, u32, u32, u32, u8, i64, i64, i64, i64)> = vec![
        (false, 0, 0, 0, 0, 0, 0, 0, 0, 0),
        (false, 31 * 24 + 11, 30, 45, 0, 0, 31 * 24 + 11, 30, 45, 0),
        (false, 11, 30, 45, 123_345_000, 3, 11, 30, 45, 123000),
        (false, 11, 30, 45, 123_345_000, 5, 11, 30, 45, 123350),
        (false, 11, 30, 45, 123_345_000, 6, 11, 30, 45, 123345),
        (false, 11, 30, 45, 123_345_600, 6, 11, 30, 45, 123346),
        (false, 11, 30, 45, 10_000, 6, 11, 30, 45, 10),
        (false, 11, 30, 45, 100_000, 5, 11, 30, 45, 100),
        (true, 11, 30, 45, 923_345_600, 0, 11, 30, 46, 0),
        (true, 11, 30, 45, 923_345_600, 1, 11, 30, 45, 900000),
        (false, 272, 59, 59, 940_000_000, 2, 272, 59, 59, 940000),
        (false, 272, 59, 59, 990_000_000, 1, 273, 0, 0, 0),
        (false, 272, 59, 59, 990_000_000, 0, 273, 0, 0, 0),
    ];
    for (neg, hh, mm, ss, nanos, fsp, h, m, s, ms) in cases {
        let duration = Some(Duration::new(neg, hh, mm, ss, nanos, fsp));
        assert_eq!(hour(&duration).unwrap(), Some(h));
        assert_eq!(minute(&duration).unwrap(), Some(m));
        assert_eq!(second(&duration).unwrap(), Some(s));
        assert_eq!(micro_second(&duration).unwrap(), Some(ms));
    }

    assert_eq!(hour(&None).unwrap(), None);
    assert_eq!(minute(&None).unwrap(), None);
    assert_eq!(second(&None).unwrap(), None);
    assert_eq!(micro_second(&None).unwrap(), None);
}

#[test]
fn test_year() {
    let cases = vec![
        (Some(dt(0, 0, 0, 0, 0, 0, 0)), Some(0i64)),
        (Some(dt(1, 1, 1, 1, 1, 1, 0)), Some(1i64)),
        (Some(dt(2018, 1, 1, 1, 1, 1, 0)), Some(2018i64)),
        (Some(dt(2019, 1, 1, 1, 1, 1, 0)), Some(2019i64)),
        (Some(dt(2020, 1, 1, 1, 1, 1, 0)), Some(2020i64)),
        (Some(dt(2021, 1, 1, 1, 1, 1, 0)), Some(2021i64)),
        (Some(dt(2022, 1, 1, 1, 1, 1, 0)), Some(2022i64)),
        (Some(dt(2023, 1, 1, 1, 1, 1, 0)), Some(2023i64)),
        (Some(dt(2024, 1, 1, 1, 1, 1, 0)), Some(2024i64)),
        (Some(dt(2025, 1, 1, 1, 1, 1, 0)), Some(2025i64)),
        (Some(dt(2026, 1, 1, 1, 1, 1, 0)), Some(2026i64)),
        (Some(dt(2027, 1, 1, 1, 1, 1, 0)), Some(2027i64)),
        (Some(dt(2028, 1, 1, 1, 1, 1, 0)), Some(2028i64)),
        (Some(dt(2029, 1, 1, 1, 1, 1, 0)), Some(2029i64)),
        (None, None),
    ];
    let mut ctx = default_ctx();
    for (time, expect) in cases {
        let output = year(&mut ctx, &time).unwrap();
        assert_eq!(output, expect);
    }
}

#[test]
fn test_day_of_month() {
    let cases = vec![
        (Some(dt(0, 0, 0, 0, 0, 0, 0)), Some(0i64)),
        (Some(dt(2018, 2, 1, 0, 0, 0, 0)), Some(1i64)),
        (Some(dt(2018, 2, 15, 0, 0, 0, 0)), Some(15i64)),
        (Some(dt(2018, 2, 28, 0, 0, 0, 0)), Some(28i64)),
        (Some(dt(2016, 2, 29, 0, 0, 0, 0)), Some(29i64)),
        (None, None),
    ];
    let mut ctx = default_ctx();
    for (time, expect) in cases {
        let output = day_of_month(&mut ctx, &time).unwrap();
        assert_eq!(output, expect);
    }
}

#[test]
fn test_month_name() {
    let cases: Vec<(Option<DateTime>, Option<&str>)> = vec![
        (None, None),
        (Some(dt(0, 0, 0, 0, 0, 0, 0)), None),
        (Some(dt(2019, 1, 1, 0, 0, 0, 0)), Some("January")),
        (Some(dt(2019, 2, 1, 0, 0, 0, 0)), Some("February")),
        (Some(dt(2019, 3, 1, 0, 0, 0, 0)), Some("March")),
        (Some(dt(2019, 4, 1, 0, 0, 0, 0)), Some("April")),
        (Some(dt(2019, 5, 1, 0, 0, 0, 0)), Some("May")),
        (Some(dt(2019, 6, 1, 0, 0, 0, 0)), Some("June")),
        (Some(dt(2019, 7, 1, 0, 0, 0, 0)), Some("July")),
        (Some(dt(2019, 8, 1, 0, 0, 0, 0)), Some("August")),
        (Some(dt(2019, 9, 1, 0, 0, 0, 0)), Some("September")),
        (Some(dt(2019, 10, 1, 0, 0, 0, 0)), Some("October")),
        (Some(dt(2019, 11, 1, 0, 0, 0, 0)), Some("November")),
        (Some(dt(2019, 12, 1, 0, 0, 0, 0)), Some("December")),
        (Some(dt(2019, 12, 0, 0, 0, 0, 0)), Some("December")),
        (Some(dt(2019, 0, 1, 0, 0, 0, 0)), None),
    ];
    let mut ctx = default_ctx();
    for (arg, exp) in cases {
        let output = month_name(&mut ctx, &arg).unwrap();
        let exp = exp.map(|v| v.as_bytes().to_vec());
        assert_eq!(output, exp);
    }
    assert_eq!(ctx.warning_count(), 0);

    // A zero date with zero dates flagged invalid, in a non-strict statement:
    // absent result plus one warning with the wrong-value code.
    let mode = SqlMode { no_zero_date: true, strict_all_tables: false, strict_trans_tables: false };
    let mut ctx = EvalContext::new(mode, false, false);
    let output = month_name(&mut ctx, &Some(date(0, 0, 0)));
    assert_eq!(ctx.warnings[0].code, ERR_TRUNCATE_WRONG_VALUE);
    assert!(output.unwrap().is_none());
}

#[test]
fn test_null_propagation_never_warns() {
    // An absent argument gives an absent result and records nothing, even
    // under the harshest flags.
    let mode = SqlMode { no_zero_date: true, strict_all_tables: true, strict_trans_tables: true };
    let mut ctx = EvalContext::new(mode, true, true);
    assert_eq!(week_day(&mut ctx, &None).unwrap(), None);
    assert_eq!(day_of_year(&mut ctx, &None).unwrap(), None);
    assert_eq!(from_days(&mut ctx, &None).unwrap(), None);
    assert_eq!(year(&mut ctx, &None).unwrap(), None);
    assert_eq!(day_of_month(&mut ctx, &None).unwrap(), None);
    assert_eq!(month_name(&mut ctx, &None).unwrap(), None);
    assert_eq!(month(&None).unwrap(), None);
    assert_eq!(ctx.warning_count(), 0);
}

#[test]
fn test_year_zero_date_modes() {
    // Default mode: a zero date gives 0 with no warning.
    let mut ctx = default_ctx();
    assert_eq!(year(&mut ctx, &Some(date(0, 0, 0))).unwrap(), Some(0));
    assert_eq!(ctx.warning_count(), 0);

    // Zero dates flagged invalid, non-strict: absent result plus one warning.
    let mode = SqlMode { no_zero_date: true, strict_all_tables: false, strict_trans_tables: false };
    let mut ctx = EvalContext::new(mode, false, false);
    assert_eq!(year(&mut ctx, &Some(date(0, 0, 0))).unwrap(), None);
    assert_eq!(ctx.warning_count(), 1);
    assert_eq!(ctx.warnings[0].code, ERR_TRUNCATE_WRONG_VALUE);
    assert_eq!(
        ctx.warnings[0].message,
        b"Incorrect datetime value: '0000-00-00 00:00:00'".to_vec()
    );
}

#[test]
fn test_strict_mode_escalation() {
    // Zero dates flagged invalid and strict handling in force: a hard failure
    // and no warning recorded.
    let mode = SqlMode { no_zero_date: true, strict_all_tables: true, strict_trans_tables: false };
    let mut ctx = EvalContext::new(mode, false, true);
    let output = month_name(&mut ctx, &Some(date(0, 0, 0)));
    match output {
        Err(EvalError::IncorrectDatetimeValue { value }) => {
            assert_eq!(value, b"0000-00-00 00:00:00".to_vec());
        }
        other => panic!("expected a hard failure, got {:?}", other),
    }
    assert_eq!(ctx.warning_count(), 0);
}

#[test]
fn test_pure_functions_idempotent() {
    // Context-free functions give bit-identical results on repeated calls.
    let d = Some(dt(2012, 12, 21, 23, 12, 34, 123456));
    assert_eq!(month(&d).unwrap(), month(&d).unwrap());
    let dur = Some(Duration::new(false, 272, 59, 59, 940_000_000, 2));
    assert_eq!(hour(&dur).unwrap(), hour(&dur).unwrap());
    assert_eq!(minute(&dur).unwrap(), minute(&dur).unwrap());
    assert_eq!(second(&dur).unwrap(), second(&dur).unwrap());
    assert_eq!(micro_second(&dur).unwrap(), micro_second(&dur).unwrap());
    let mut ctx = default_ctx();
    let a = from_days(&mut ctx, &Some(735_000)).unwrap();
    let b = from_days(&mut ctx, &Some(735_000)).unwrap();
    assert_eq!(a, b);
    assert_eq!(ctx.warning_count(), 0);
}

#[test]
fn test_duration_rounding_carry() {
    // Rounding the fraction up across a second carries through the fields.
    let d = Duration::new(false, 0, 59, 59, 999_999_950, 6);
    assert_eq!(d.hours, 1);
    assert_eq!(d.minutes, 0);
    assert_eq!(d.seconds, 0);
    assert_eq!(d.micros, 0);
}
