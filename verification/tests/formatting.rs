use temporal_fns::context::{EvalContext, EvalError, SqlMode};
use temporal_fns::funcs::date_format;
use temporal_fns::temporal::DateTime;

fn lenient_mode() -> SqlMode {
    SqlMode { no_zero_date: false, strict_all_tables: false, strict_trans_tables: false }
}

fn default_ctx() -> EvalContext {
    EvalContext::new(lenient_mode(), false, false)
}

fn dt(y: u32, mo: u32, d: u32, h: u32, mi: u32, s: u32, us: u32) -> DateTime {
    DateTime::new(y, mo, d, h, mi, s, us)
}

#[test]
fn test_date_format() {
    let cases = vec![
        (
            dt(2010, 1, 7, 23, 12, 34, 123450),
            "%b %M %m %c %D %d %e %j %k %h %i %p %r %T %s %f %U %u
                %V %v %a %W %w %X %x %Y %y %%",
            "Jan January 01 1 7th 07 7 007 23 11 12 PM 11:12:34 PM 23:12:34 34 123450 01 01
                01 01 Thu Thursday 4 2010 2010 2010 10 %",
        ),
        (
            dt(2012, 12, 21, 23, 12, 34, 123456),
            "%b %M %m %c %D %d %e %j %k %h %i %p %r %T %s %f %U
                %u %V %v %a %W %w %X %x %Y %y %%",
            "Dec December 12 12 21st 21 21 356 23 11 12 PM 11:12:34 PM 23:12:34 34 123456 51
                51 51 51 Fri Friday 5 2012 2012 2012 12 %",
        ),
        (
            // The week directives share one week-numbering mode, so the
            // results of "%U %u %V %Y" differ from databases that honor the
            // per-directive modes.
            dt(0, 1, 1, 0, 0, 0, 123456),
            "%b %M %m %c %D %d %e %j %k %h %i %p %r %T %s %f %v
                %x %Y %y %%",
            "Jan January 01 1 1st 01 1 001 0 12 00 AM 12:00:00 AM 00:00:00 00 123456 52
                4294967295 0000 00 %",
        ),
        (
            dt(2016, 9, 3, 0, 59, 59, 123456),
            "abc%b %M %m %c %D %d %e %j %k %h %i %p %r %T %s %f %U
                %u %V %v %a %W %w %X %x %Y %y!123 %%xyz %z",
            "abcSep September 09 9 3rd 03 3 247 0 12 59 AM 12:59:59 AM 00:59:59 59 123456 35
                35 35 35 Sat Saturday 6 2016 2016 2016 16!123 %xyz z",
        ),
        (
            dt(2012, 10, 1, 0, 0, 0, 0),
            "%b %M %m %c %D %d %e %j %k %H %i %p %r %T %s %f %v
                %x %Y %y %%",
            "Oct October 10 10 1st 01 1 275 0 00 00 AM 12:00:00 AM 00:00:00 00 000000 40
                2012 2012 12 %",
        ),
    ];
    for (date, format, expect) in cases {
        let date = Some(date);
        let format = Some(format.as_bytes().to_vec());
        let expect = Some(expect.as_bytes().to_vec());

        let mut ctx = default_ctx();
        let output = date_format(&mut ctx, &date, &format).unwrap();
        assert_eq!(output, expect, "{:?} {:?}", date, format);
        assert_eq!(ctx.warning_count(), 0);
    }

    {
        let mode =
            SqlMode { no_zero_date: true, strict_all_tables: true, strict_trans_tables: false };
        let mut ctx = EvalContext::new(mode, false, true);
        let output = date_format(&mut ctx, &None, &None).unwrap();
        assert_eq!(output, None);
        assert_eq!(ctx.warning_count(), 0);
    }

    // An absent format string gives an absent result.
    let cases: Vec<(Option<DateTime>, Option<&str>)> =
        vec![(Some(dt(2010, 1, 7, 23, 12, 34, 123450)), None), (None, None)];

    for (date, format) in cases {
        let format = format.map(|s| s.as_bytes().to_vec());
        let mut ctx = default_ctx();
        let output = date_format(&mut ctx, &date, &format).unwrap();
        assert_eq!(output, None, "{:?} {:?}", date, format);
    }
}

#[test]
fn test_date_format_literal_edges() {
    let mut ctx = default_ctx();
    let date = Some(dt(2012, 12, 21, 23, 12, 34, 123456));

    // A lone trailing '%' is emitted literally.
    let output = date_format(&mut ctx, &date, &Some(b"abc%".to_vec())).unwrap();
    assert_eq!(output, Some(b"abc%".to_vec()));

    // An unrecognized directive letter is emitted literally, without the '%'.
    let output = date_format(&mut ctx, &date, &Some(b"%q%z%E".to_vec())).unwrap();
    assert_eq!(output, Some(b"qzE".to_vec()));

    // Formatting is deterministic: a second call gives identical bytes.
    let once = date_format(&mut ctx, &date, &Some(b"%Y-%m-%d".to_vec())).unwrap();
    let twice = date_format(&mut ctx, &date, &Some(b"%Y-%m-%d".to_vec())).unwrap();
    assert_eq!(once, twice);
    assert_eq!(once, Some(b"2012-12-21".to_vec()));
    assert_eq!(ctx.warning_count(), 0);
}

#[test]
fn test_date_format_bad_encoding() {
    // A format string that is not valid text is a hard failure of its own
    // class, not routed through the error policy, under any mode.
    let mode = SqlMode { no_zero_date: true, strict_all_tables: false, strict_trans_tables: false };
    let mut ctx = EvalContext::new(mode, false, false);
    let date = Some(dt(2012, 12, 21, 23, 12, 34, 123456));
    let bad = Some(vec![b'%', b'Y', 0xFF, 0xFE]);
    let output = date_format(&mut ctx, &date, &bad);
    assert_eq!(output, Err(EvalError::InvalidEncoding));
    assert_eq!(ctx.warning_count(), 0);

    // Multi-byte characters that are valid text pass through verbatim.
    let mut ctx = default_ctx();
    let output = date_format(&mut ctx, &date, &Some("%Y\u{00e9}".as_bytes().to_vec())).unwrap();
    assert_eq!(output, Some("2012\u{00e9}".as_bytes().to_vec()));
}

#[test]
fn test_date_format_invalid_date_modes() {
    // A partly zero date: warning and absent result when lenient, hard
    // failure when strict.
    let date = Some(dt(2018, 12, 0, 0, 0, 0, 0));
    let layout = Some(b"%Y".to_vec());

    let mode = SqlMode { no_zero_date: false, strict_all_tables: false, strict_trans_tables: false };
    let mut ctx = EvalContext::new(mode, false, false);
    let output = date_format(&mut ctx, &date, &layout).unwrap();
    assert_eq!(output, None);
    assert_eq!(ctx.warning_count(), 1);
    assert_eq!(
        ctx.warnings[0].message,
        b"Incorrect datetime value: '2018-12-00 00:00:00'".to_vec()
    );

    let mode = SqlMode { no_zero_date: false, strict_all_tables: true, strict_trans_tables: false };
    let mut ctx = EvalContext::new(mode, true, false);
    let output = date_format(&mut ctx, &date, &layout);
    match output {
        Err(EvalError::IncorrectDatetimeValue { value }) => {
            assert_eq!(value, b"2018-12-00 00:00:00".to_vec());
        }
        other => panic!("expected a hard failure, got {:?}", other),
    }
    assert_eq!(ctx.warning_count(), 0);
}
