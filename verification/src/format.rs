//! The date-format mini-language and its byte-level rendering helpers: decimal
//! rendering with zero padding, English month and weekday names, text (UTF-8)
//! validity of the format string, and the directive scanner itself.

use vstd::prelude::*;

use crate::calendar::{
    calc_day_of_year, calc_week, calc_weekday, days_before_month, week_of, week_year_of,
    weekday_of,
};
use crate::temporal::{pow10, DateTime};

verus! {

/// The decimal digits of a non-negative number, most significant first.
pub open spec fn dec_seq(n: int) -> Seq<u8>
    recommends
        n >= 0,
    decreases n,
{
    if n < 10 {
        seq![(48 + n) as u8]
    } else {
        dec_seq(n / 10) + seq![(48 + n % 10) as u8]
    }
}

/// How many digits the decimal form of a non-negative number holds.
pub open spec fn dec_len(n: int) -> int
    recommends
        n >= 0,
    decreases n,
{
    if n < 10 {
        1
    } else {
        1 + dec_len(n / 10)
    }
}

pub open spec fn zero_seq(k: int) -> Seq<u8> {
    Seq::new(k as nat, |i: int| 48u8)
}

/// The decimal form of a number, left-padded with zeros to width `w`; numbers
/// already that wide keep their full form.
pub open spec fn padded(n: int, w: int) -> Seq<u8> {
    if dec_len(n) < w {
        zero_seq(w - dec_len(n)) + dec_seq(n)
    } else {
        dec_seq(n)
    }
}

proof fn lemma_dec_len_le(n: int, k: int)
    requires
        0 <= n,
        n < pow10(k),
        k >= 1,
    ensures
        dec_len(n) <= k,
    decreases k,
{
    if n >= 10 {
        vstd::arithmetic::div_mod::lemma_fundamental_div_mod(n, 10);
        assert(n / 10 < pow10(k - 1));
        lemma_dec_len_le(n / 10, k - 1);
    }
}

/// Appends the decimal form of `n`.
pub fn push_dec(out: &mut Vec<u8>, n: u32)
    ensures
        final(out)@ == old(out)@ + dec_seq(n as int),
    decreases n,
{
    if n < 10 {
        out.push(48 + n as u8);
    } else {
        push_dec(out, n / 10);
        out.push(48 + (n % 10) as u8);
        proof {
            assert(out@ =~= old(out)@ + dec_seq(n as int));
        }
    }
}

/// The width of the decimal form of `n`.
pub fn dec_width(n: u32) -> (w: u32)
    ensures
        w as int == dec_len(n as int),
        1 <= w <= 10,
    decreases n,
{
    proof {
        reveal_with_fuel(pow10, 11);
        lemma_dec_len_le(n as int, 10);
    }
    if n < 10 {
        1
    } else {
        1 + dec_width(n / 10)
    }
}

/// Appends the decimal form of `n`, zero-padded to width `w`.
pub fn push_padded(out: &mut Vec<u8>, n: u32, w: u32)
    requires
        w <= 10,
    ensures
        final(out)@ == old(out)@ + padded(n as int, w as int),
{
    let len = dec_width(n);
    if len < w {
        let zeros = w - len;
        let mut j: u32 = 0;
        while j < zeros
            invariant
                j <= zeros,
                out@ == old(out)@ + zero_seq(j as int),
            decreases zeros - j,
        {
            out.push(48);
            j = j + 1;
            proof {
                assert(out@ =~= old(out)@ + zero_seq(j as int));
            }
        }
        push_dec(out, n);
        proof {
            assert(out@ =~= old(out)@ + padded(n as int, w as int));
        }
    } else {
        push_dec(out, n);
    }
}

/// The full English month names; months outside 1 ..= 12 have none.
pub open spec fn month_full_seq(m: int) -> Seq<u8> {
    if m == 1 {
        seq!['J' as u8, 'a' as u8, 'n' as u8, 'u' as u8, 'a' as u8, 'r' as u8, 'y' as u8]
    } else if m == 2 {
        seq!['F' as u8, 'e' as u8, 'b' as u8, 'r' as u8, 'u' as u8, 'a' as u8, 'r' as u8, 'y' as u8]
    } else if m == 3 {
        seq!['M' as u8, 'a' as u8, 'r' as u8, 'c' as u8, 'h' as u8]
    } else if m == 4 {
        seq!['A' as u8, 'p' as u8, 'r' as u8, 'i' as u8, 'l' as u8]
    } else if m == 5 {
        seq!['M' as u8, 'a' as u8, 'y' as u8]
    } else if m == 6 {
        seq!['J' as u8, 'u' as u8, 'n' as u8, 'e' as u8]
    } else if m == 7 {
        seq!['J' as u8, 'u' as u8, 'l' as u8, 'y' as u8]
    } else if m == 8 {
        seq!['A' as u8, 'u' as u8, 'g' as u8, 'u' as u8, 's' as u8, 't' as u8]
    } else if m == 9 {
        seq!['S' as u8, 'e' as u8, 'p' as u8, 't' as u8, 'e' as u8, 'm' as u8, 'b' as u8, 'e' as u8, 'r' as u8]
    } else if m == 10 {
        seq!['O' as u8, 'c' as u8, 't' as u8, 'o' as u8, 'b' as u8, 'e' as u8, 'r' as u8]
    } else if m == 11 {
        seq!['N' as u8, 'o' as u8, 'v' as u8, 'e' as u8, 'm' as u8, 'b' as u8, 'e' as u8, 'r' as u8]
    } else if m == 12 {
        seq!['D' as u8, 'e' as u8, 'c' as u8, 'e' as u8, 'm' as u8, 'b' as u8, 'e' as u8, 'r' as u8]
    } else {
        Seq::empty()
    }
}

/// The three-letter English month abbreviations.
pub open spec fn month_abbrev_seq(m: int) -> Seq<u8> {
    if 1 <= m <= 12 {
        month_full_seq(m).take(3)
    } else {
        Seq::empty()
    }
}

/// The full English weekday names, Monday counted as 0.
pub open spec fn weekday_full_seq(w: int) -> Seq<u8> {
    if w == 0 {
        seq!['M' as u8, 'o' as u8, 'n' as u8, 'd' as u8, 'a' as u8, 'y' as u8]
    } else if w == 1 {
        seq!['T' as u8, 'u' as u8, 'e' as u8, 's' as u8, 'd' as u8, 'a' as u8, 'y' as u8]
    } else if w == 2 {
        seq!['W' as u8, 'e' as u8, 'd' as u8, 'n' as u8, 'e' as u8, 's' as u8, 'd' as u8, 'a' as u8, 'y' as u8]
    } else if w == 3 {
        seq!['T' as u8, 'h' as u8, 'u' as u8, 'r' as u8, 's' as u8, 'd' as u8, 'a' as u8, 'y' as u8]
    } else if w == 4 {
        seq!['F' as u8, 'r' as u8, 'i' as u8, 'd' as u8, 'a' as u8, 'y' as u8]
    } else if w == 5 {
        seq!['S' as u8, 'a' as u8, 't' as u8, 'u' as u8, 'r' as u8, 'd' as u8, 'a' as u8, 'y' as u8]
    } else if w == 6 {
        seq!['S' as u8, 'u' as u8, 'n' as u8, 'd' as u8, 'a' as u8, 'y' as u8]
    } else {
        Seq::empty()
    }
}

/// The three-letter English weekday abbreviations, Monday counted as 0.
pub open spec fn weekday_abbrev_seq(w: int) -> Seq<u8> {
    if 0 <= w <= 6 {
        weekday_full_seq(w).take(3)
    } else {
        Seq::empty()
    }
}

/// Appends the full name of month `m`.
pub fn push_month_full(out: &mut Vec<u8>, m: u32)
    requires
        1 <= m <= 12,
    ensures
        final(out)@ == old(out)@ + month_full_seq(m as int),
{
    let name: Vec<u8> = if m == 1 {
        vec!['J' as u8, 'a' as u8, 'n' as u8, 'u' as u8, 'a' as u8, 'r' as u8, 'y' as u8]
    } else if m == 2 {
        vec!['F' as u8, 'e' as u8, 'b' as u8, 'r' as u8, 'u' as u8, 'a' as u8, 'r' as u8, 'y' as u8]
    } else if m == 3 {
        vec!['M' as u8, 'a' as u8, 'r' as u8, 'c' as u8, 'h' as u8]
    } else if m == 4 {
        vec!['A' as u8, 'p' as u8, 'r' as u8, 'i' as u8, 'l' as u8]
    } else if m == 5 {
        vec!['M' as u8, 'a' as u8, 'y' as u8]
    } else if m == 6 {
        vec!['J' as u8, 'u' as u8, 'n' as u8, 'e' as u8]
    } else if m == 7 {
        vec!['J' as u8, 'u' as u8, 'l' as u8, 'y' as u8]
    } else if m == 8 {
        vec!['A' as u8, 'u' as u8, 'g' as u8, 'u' as u8, 's' as u8, 't' as u8]
    } else if m == 9 {
        vec!['S' as u8, 'e' as u8, 'p' as u8, 't' as u8, 'e' as u8, 'm' as u8, 'b' as u8, 'e' as u8, 'r' as u8]
    } else if m == 10 {
        vec!['O' as u8, 'c' as u8, 't' as u8, 'o' as u8, 'b' as u8, 'e' as u8, 'r' as u8]
    } else if m == 11 {
        vec!['N' as u8, 'o' as u8, 'v' as u8, 'e' as u8, 'm' as u8, 'b' as u8, 'e' as u8, 'r' as u8]
    } else {
        vec!['D' as u8, 'e' as u8, 'c' as u8, 'e' as u8, 'm' as u8, 'b' as u8, 'e' as u8, 'r' as u8]
    };
    proof {
        assert(name@ =~= month_full_seq(m as int));
    }
    let mut i: usize = 0;
    while i < name.len()
        invariant
            i <= name@.len(),
            out@ == old(out)@ + name@.take(i as int),
        decreases name@.len() - i,
    {
        out.push(name[i]);
        i = i + 1;
        proof {
            assert(out@ =~= old(out)@ + name@.take(i as int));
        }
    }
    proof {
        assert(name@.take(name@.len() as int) =~= name@);
    }
}

/// Appends the first three bytes of the full name of month `m`.
pub fn push_month_abbrev(out: &mut Vec<u8>, m: u32)
    requires
        1 <= m <= 12,
    ensures
        final(out)@ == old(out)@ + month_abbrev_seq(m as int),
{
    let mut name: Vec<u8> = Vec::new();
    push_month_full(&mut name, m);
    out.push(name[0]);
    out.push(name[1]);
    out.push(name[2]);
    proof {
        assert(out@ =~= old(out)@ + month_abbrev_seq(m as int));
    }
}

/// Appends the full name of weekday `w`, Monday counted as 0.
pub fn push_weekday_full(out: &mut Vec<u8>, w: u32)
    requires
        w <= 6,
    ensures
        final(out)@ == old(out)@ + weekday_full_seq(w as int),
{
    let name: Vec<u8> = if w == 0 {
        vec!['M' as u8, 'o' as u8, 'n' as u8, 'd' as u8, 'a' as u8, 'y' as u8]
    } else if w == 1 {
        vec!['T' as u8, 'u' as u8, 'e' as u8, 's' as u8, 'd' as u8, 'a' as u8, 'y' as u8]
    } else if w == 2 {
        vec!['W' as u8, 'e' as u8, 'd' as u8, 'n' as u8, 'e' as u8, 's' as u8, 'd' as u8, 'a' as u8, 'y' as u8]
    } else if w == 3 {
        vec!['T' as u8, 'h' as u8, 'u' as u8, 'r' as u8, 's' as u8, 'd' as u8, 'a' as u8, 'y' as u8]
    } else if w == 4 {
        vec!['F' as u8, 'r' as u8, 'i' as u8, 'd' as u8, 'a' as u8, 'y' as u8]
    } else if w == 5 {
        vec!['S' as u8, 'a' as u8, 't' as u8, 'u' as u8, 'r' as u8, 'd' as u8, 'a' as u8, 'y' as u8]
    } else {
        vec!['S' as u8, 'u' as u8, 'n' as u8, 'd' as u8, 'a' as u8, 'y' as u8]
    };
    proof {
        assert(name@ =~= weekday_full_seq(w as int));
    }
    let mut i: usize = 0;
    while i < name.len()
        invariant
            i <= name@.len(),
            out@ == old(out)@ + name@.take(i as int),
        decreases name@.len() - i,
    {
        out.push(name[i]);
        i = i + 1;
        proof {
            assert(out@ =~= old(out)@ + name@.take(i as int));
        }
    }
    proof {
        assert(name@.take(name@.len() as int) =~= name@);
    }
}

/// Appends the first three bytes of the full name of weekday `w`.
pub fn push_weekday_abbrev(out: &mut Vec<u8>, w: u32)
    requires
        w <= 6,
    ensures
        final(out)@ == old(out)@ + weekday_abbrev_seq(w as int),
{
    let mut name: Vec<u8> = Vec::new();
    push_weekday_full(&mut name, w);
    out.push(name[0]);
    out.push(name[1]);
    out.push(name[2]);
    proof {
        assert(out@ =~= old(out)@ + weekday_abbrev_seq(w as int));
    }
}

/// The 12-hour clock's rendering of an hour; midnight renders as 12.
pub open spec fn hour12(h: int) -> int {
    if h % 12 == 0 {
        12
    } else {
        h % 12
    }
}

pub open spec fn ampm_seq(h: int) -> Seq<u8> {
    if h < 12 {
        seq!['A' as u8, 'M' as u8]
    } else {
        seq!['P' as u8, 'M' as u8]
    }
}

/// The English ordinal suffix of a day of the month.
pub open spec fn ordinal_suffix(d: int) -> Seq<u8> {
    if d % 10 == 1 && d != 11 {
        seq!['s' as u8, 't' as u8]
    } else if d % 10 == 2 && d != 12 {
        seq!['n' as u8, 'd' as u8]
    } else if d % 10 == 3 && d != 13 {
        seq!['r' as u8, 'd' as u8]
    } else {
        seq!['t' as u8, 'h' as u8]
    }
}

/// The 24-hour composite time, HH:MM:SS.
pub open spec fn time24_seq(t: DateTime) -> Seq<u8> {
    padded(t.hour as int, 2) + seq![':' as u8] + padded(t.minute as int, 2) + seq![':' as u8]
        + padded(t.second as int, 2)
}

/// The 12-hour composite time, hh:MM:SS AM|PM.
pub open spec fn time12_seq(t: DateTime) -> Seq<u8> {
    padded(hour12(t.hour as int), 2) + seq![':' as u8] + padded(t.minute as int, 2) + seq![
        ':' as u8,
    ] + padded(t.second as int, 2) + seq![' ' as u8] + ampm_seq(t.hour as int)
}

/// The day of the year of a date, counted from 1.
pub open spec fn day_of_year_of(t: DateTime) -> int {
    days_before_month(t.year as int, t.month as int) + t.day as int
}

/// The directive letters the formatter knows.
pub open spec fn recognized_directive(c: u8) -> bool {
    ||| c == 'b' as u8
    ||| c == 'M' as u8
    ||| c == 'm' as u8
    ||| c == 'c' as u8
    ||| c == 'D' as u8
    ||| c == 'd' as u8
    ||| c == 'e' as u8
    ||| c == 'j' as u8
    ||| c == 'H' as u8
    ||| c == 'k' as u8
    ||| c == 'h' as u8
    ||| c == 'I' as u8
    ||| c == 'l' as u8
    ||| c == 'i' as u8
    ||| c == 'p' as u8
    ||| c == 'r' as u8
    ||| c == 'T' as u8
    ||| c == 's' as u8
    ||| c == 'S' as u8
    ||| c == 'f' as u8
    ||| c == 'U' as u8
    ||| c == 'u' as u8
    ||| c == 'V' as u8
    ||| c == 'v' as u8
    ||| c == 'a' as u8
    ||| c == 'W' as u8
    ||| c == 'w' as u8
    ||| c == 'X' as u8
    ||| c == 'x' as u8
    ||| c == 'Y' as u8
    ||| c == 'y' as u8
    ||| c == '%' as u8
}

/// What one `%`-directive emits. An unrecognized letter is emitted literally.
pub open spec fn directive_seq(t: DateTime, c: u8) -> Seq<u8> {
    let y = t.year as int;
    let m = t.month as int;
    let d = t.day as int;
    let h = t.hour as int;
    if c == 'b' as u8 {
        month_abbrev_seq(m)
    } else if c == 'M' as u8 {
        month_full_seq(m)
    } else if c == 'm' as u8 {
        padded(m, 2)
    } else if c == 'c' as u8 {
        dec_seq(m)
    } else if c == 'D' as u8 {
        dec_seq(d) + ordinal_suffix(d)
    } else if c == 'd' as u8 {
        padded(d, 2)
    } else if c == 'e' as u8 {
        dec_seq(d)
    } else if c == 'j' as u8 {
        padded(day_of_year_of(t), 3)
    } else if c == 'H' as u8 {
        padded(h, 2)
    } else if c == 'k' as u8 {
        dec_seq(h)
    } else if c == 'h' as u8 || c == 'I' as u8 {
        padded(hour12(h), 2)
    } else if c == 'l' as u8 {
        dec_seq(hour12(h))
    } else if c == 'i' as u8 {
        padded(t.minute as int, 2)
    } else if c == 'p' as u8 {
        ampm_seq(h)
    } else if c == 'r' as u8 {
        time12_seq(t)
    } else if c == 'T' as u8 {
        time24_seq(t)
    } else if c == 's' as u8 || c == 'S' as u8 {
        padded(t.second as int, 2)
    } else if c == 'f' as u8 {
        padded(t.micro as int, 6)
    } else if c == 'U' as u8 || c == 'u' as u8 || c == 'V' as u8 || c == 'v' as u8 {
        padded(week_of(y, m, d), 2)
    } else if c == 'a' as u8 {
        weekday_abbrev_seq(weekday_of(y, m, d))
    } else if c == 'W' as u8 {
        weekday_full_seq(weekday_of(y, m, d))
    } else if c == 'w' as u8 {
        dec_seq((weekday_of(y, m, d) + 1) % 7)
    } else if c == 'X' as u8 || c == 'x' as u8 {
        padded(week_year_of(y, m, d), 4)
    } else if c == 'Y' as u8 {
        padded(y, 4)
    } else if c == 'y' as u8 {
        padded(y % 100, 2)
    } else if c == '%' as u8 {
        seq!['%' as u8]
    } else {
        seq![c]
    }
}

/// What a whole format string emits: `%` introduces a two-character directive,
/// any other byte is copied verbatim, and a lone `%` at the end of the string
/// is itself copied verbatim.
pub open spec fn fmt_spec(t: DateTime, layout: Seq<u8>) -> Seq<u8>
    decreases layout.len(),
{
    if layout.len() == 0 {
        Seq::empty()
    } else if layout[0] == '%' as u8 && layout.len() >= 2 {
        directive_seq(t, layout[1]) + fmt_spec(t, layout.skip(2))
    } else if layout[0] == '%' as u8 {
        seq!['%' as u8]
    } else {
        seq![layout[0]] + fmt_spec(t, layout.skip(1))
    }
}

/// An unrecognized directive letter after `%` is emitted literally, never an
/// error.
pub proof fn lemma_unrecognized_directive_is_literal(t: DateTime, c: u8)
    requires
        !recognized_directive(c),
    ensures
        directive_seq(t, c) == seq![c],
{
}

/// `%%` emits one literal percent sign.
pub proof fn lemma_percent_escape(t: DateTime)
    ensures
        directive_seq(t, '%' as u8) == seq!['%' as u8],
{
}

/// A lone `%` standing at the end of the format string is emitted literally.
pub proof fn lemma_trailing_percent(t: DateTime)
    ensures
        fmt_spec(t, seq!['%' as u8]) == seq!['%' as u8],
{
    assert(fmt_spec(t, seq!['%' as u8]) == seq!['%' as u8]);
}

/// The 12-hour clock's hour, midnight rendered as 12.
pub fn hour_12(h: u32) -> (r: u32)
    ensures
        r as int == hour12(h as int),
{
    let hm = h % 12;
    if hm == 0 {
        12
    } else {
        hm
    }
}

/// Appends what one directive emits.
fn emit_directive(t: &DateTime, c: u8, out: &mut Vec<u8>)
    requires
        t.spec_valid(),
    ensures
        final(out)@ == old(out)@ + directive_seq(*t, c),
{
    if c == 'b' as u8 {
        push_month_abbrev(out, t.month);
    } else if c == 'M' as u8 {
        push_month_full(out, t.month);
    } else if c == 'm' as u8 {
        push_padded(out, t.month, 2);
    } else if c == 'c' as u8 {
        push_dec(out, t.month);
    } else if c == 'D' as u8 {
        push_dec(out, t.day);
        let d = t.day;
        if d % 10 == 1 && d != 11 {
            out.push('s' as u8);
            out.push('t' as u8);
        } else if d % 10 == 2 && d != 12 {
            out.push('n' as u8);
            out.push('d' as u8);
        } else if d % 10 == 3 && d != 13 {
            out.push('r' as u8);
            out.push('d' as u8);
        } else {
            out.push('t' as u8);
            out.push('h' as u8);
        }
        proof {
            assert(out@ =~= old(out)@ + directive_seq(*t, c));
        }
    } else if c == 'd' as u8 {
        push_padded(out, t.day, 2);
    } else if c == 'e' as u8 {
        push_dec(out, t.day);
    } else if c == 'j' as u8 {
        let doy = calc_day_of_year(t.year, t.month, t.day);
        push_padded(out, doy, 3);
    } else if c == 'H' as u8 {
        push_padded(out, t.hour, 2);
    } else if c == 'k' as u8 {
        push_dec(out, t.hour);
    } else if c == 'h' as u8 || c == 'I' as u8 {
        push_padded(out, hour_12(t.hour), 2);
    } else if c == 'l' as u8 {
        push_dec(out, hour_12(t.hour));
    } else if c == 'i' as u8 {
        push_padded(out, t.minute, 2);
    } else if c == 'p' as u8 {
        if t.hour < 12 {
            out.push('A' as u8);
        } else {
            out.push('P' as u8);
        }
        out.push('M' as u8);
        proof {
            assert(out@ =~= old(out)@ + directive_seq(*t, c));
        }
    } else if c == 'r' as u8 {
        push_padded(out, hour_12(t.hour), 2);
        out.push(':' as u8);
        push_padded(out, t.minute, 2);
        out.push(':' as u8);
        push_padded(out, t.second, 2);
        out.push(' ' as u8);
        if t.hour < 12 {
            out.push('A' as u8);
        } else {
            out.push('P' as u8);
        }
        out.push('M' as u8);
        proof {
            assert(out@ =~= old(out)@ + directive_seq(*t, c));
        }
    } else if c == 'T' as u8 {
        push_padded(out, t.hour, 2);
        out.push(':' as u8);
        push_padded(out, t.minute, 2);
        out.push(':' as u8);
        push_padded(out, t.second, 2);
        proof {
            assert(out@ =~= old(out)@ + directive_seq(*t, c));
        }
    } else if c == 's' as u8 || c == 'S' as u8 {
        push_padded(out, t.second, 2);
    } else if c == 'f' as u8 {
        push_padded(out, t.micro, 6);
    } else if c == 'U' as u8 || c == 'u' as u8 || c == 'V' as u8 || c == 'v' as u8 {
        let wk = calc_week(t.year, t.month, t.day);
        push_padded(out, wk.0, 2);
    } else if c == 'a' as u8 {
        let wd = calc_weekday(t.year, t.month, t.day);
        push_weekday_abbrev(out, wd);
    } else if c == 'W' as u8 {
        let wd = calc_weekday(t.year, t.month, t.day);
        push_weekday_full(out, wd);
    } else if c == 'w' as u8 {
        let wd = calc_weekday(t.year, t.month, t.day);
        push_dec(out, (wd + 1) % 7);
    } else if c == 'X' as u8 || c == 'x' as u8 {
        let wk = calc_week(t.year, t.month, t.day);
        push_padded(out, wk.1, 4);
    } else if c == 'Y' as u8 {
        push_padded(out, t.year, 4);
    } else if c == 'y' as u8 {
        push_padded(out, t.year % 100, 2);
    } else if c == '%' as u8 {
        out.push('%' as u8);
        proof {
            assert(out@ =~= old(out)@ + directive_seq(*t, c));
        }
    } else {
        out.push(c);
        proof {
            assert(out@ =~= old(out)@ + directive_seq(*t, c));
        }
    }
}

/// Renders a real date through a format string, scanning it left to right.
pub fn format_datetime(t: &DateTime, layout: &Vec<u8>) -> (out: Vec<u8>)
    requires
        t.spec_valid(),
    ensures
        out@ == fmt_spec(*t, layout@),
{
    let mut out: Vec<u8> = Vec::new();
    let mut i: usize = 0;
    proof {
        assert(layout@.skip(0) =~= layout@);
    }
    while i < layout.len()
        invariant
            i <= layout@.len(),
            t.spec_valid(),
            fmt_spec(*t, layout@) == out@ + fmt_spec(*t, layout@.skip(i as int)),
        decreases layout@.len() - i,
    {
        let c = layout[i];
        if c == '%' as u8 && i + 1 < layout.len() {
            let dir = layout[i + 1];
            proof {
                assert(layout@.skip(i as int)[0] == layout@[i as int]);
                assert(layout@.skip(i as int)[1] == layout@[i as int + 1]);
                assert(layout@.skip(i as int).skip(2) =~= layout@.skip(i as int + 2));
            }
            emit_directive(t, dir, &mut out);
            i = i + 2;
        } else {
            proof {
                assert(layout@.skip(i as int)[0] == layout@[i as int]);
                assert(layout@.skip(i as int).skip(1) =~= layout@.skip(i as int + 1));
            }
            out.push(c);
            i = i + 1;
        }
        proof {
            assert(fmt_spec(*t, layout@) =~= out@ + fmt_spec(*t, layout@.skip(i as int)));
        }
    }
    proof {
        assert(layout@.skip(layout@.len() as int) =~= Seq::<u8>::empty());
    }
    out
}

/// Whether a continuation byte of a multi-byte character is in range.
pub open spec fn is_cont(b: u8) -> bool {
    0x80 <= b < 0xC0
}

/// Whether a byte sequence is well-formed text: ASCII, or the two- to
/// four-byte forms with their continuation ranges, shortest form only and
/// surrogates excluded.
pub open spec fn is_valid_text(s: Seq<u8>) -> bool
    decreases s.len(),
{
    if s.len() == 0 {
        true
    } else {
        let b0 = s[0];
        if b0 < 0x80 {
            is_valid_text(s.skip(1))
        } else if 0xC2 <= b0 && b0 <= 0xDF {
            s.len() >= 2 && is_cont(s[1]) && is_valid_text(s.skip(2))
        } else if b0 == 0xE0 {
            s.len() >= 3 && 0xA0 <= s[1] < 0xC0 && is_cont(s[2]) && is_valid_text(s.skip(3))
        } else if 0xE1 <= b0 && b0 <= 0xEC || b0 == 0xEE || b0 == 0xEF {
            s.len() >= 3 && is_cont(s[1]) && is_cont(s[2]) && is_valid_text(s.skip(3))
        } else if b0 == 0xED {
            s.len() >= 3 && 0x80 <= s[1] < 0xA0 && is_cont(s[2]) && is_valid_text(s.skip(3))
        } else if b0 == 0xF0 {
            s.len() >= 4 && 0x90 <= s[1] < 0xC0 && is_cont(s[2]) && is_cont(s[3]) && is_valid_text(
                s.skip(4),
            )
        } else if 0xF1 <= b0 && b0 <= 0xF3 {
            s.len() >= 4 && is_cont(s[1]) && is_cont(s[2]) && is_cont(s[3]) && is_valid_text(
                s.skip(4),
            )
        } else if b0 == 0xF4 {
            s.len() >= 4 && 0x80 <= s[1] < 0x90 && is_cont(s[2]) && is_cont(s[3]) && is_valid_text(
                s.skip(4),
            )
        } else {
            false
        }
    }
}

fn cont_byte(b: u8) -> (r: bool)
    ensures
        r == is_cont(b),
{
    0x80 <= b && b < 0xC0
}

/// Decides whether a byte sequence is well-formed text.
pub fn check_valid_text(s: &Vec<u8>) -> (r: bool)
    ensures
        r == is_valid_text(s@),
{
    let n = s.len();
    let mut i: usize = 0;
    proof {
        assert(s@.skip(0) =~= s@);
    }
    while i < n
        invariant
            i <= n,
            n == s@.len(),
            is_valid_text(s@) == is_valid_text(s@.skip(i as int)),
        decreases n - i,
    {
        let b0 = s[i];
        let ghost rest = s@.skip(i as int);
        proof {
            assert(rest[0] == s@[i as int]);
        }
        let step: usize;
        if b0 < 0x80 {
            step = 1;
        } else if 0xC2 <= b0 && b0 <= 0xDF {
            if !(i + 1 < n && cont_byte(s[i + 1])) {
                proof {
                    if i + 1 < n {
                        assert(rest[1] == s@[i as int + 1]);
                    }
                }
                return false;
            }
            proof {
                assert(rest[1] == s@[i as int + 1]);
            }
            step = 2;
        } else if b0 == 0xE0 {
            if !(n - i > 2 && 0xA0 <= s[i + 1] && s[i + 1] < 0xC0 && cont_byte(s[i + 2])) {
                proof {
                    if i + 1 < n {
                        assert(rest[1] == s@[i as int + 1]);
                    }
                    if n - i > 2 {
                        assert(rest[2] == s@[i as int + 2]);
                    }
                }
                return false;
            }
            proof {
                assert(rest[1] == s@[i as int + 1]);
                assert(rest[2] == s@[i as int + 2]);
            }
            step = 3;
        } else if 0xE1 <= b0 && b0 <= 0xEC || b0 == 0xEE || b0 == 0xEF {
            if !(n - i > 2 && cont_byte(s[i + 1]) && cont_byte(s[i + 2])) {
                proof {
                    if i + 1 < n {
                        assert(rest[1] == s@[i as int + 1]);
                    }
                    if n - i > 2 {
                        assert(rest[2] == s@[i as int + 2]);
                    }
                }
                return false;
            }
            proof {
                assert(rest[1] == s@[i as int + 1]);
                assert(rest[2] == s@[i as int + 2]);
            }
            step = 3;
        } else if b0 == 0xED {
            if !(n - i > 2 && 0x80 <= s[i + 1] && s[i + 1] < 0xA0 && cont_byte(s[i + 2])) {
                proof {
                    if i + 1 < n {
                        assert(rest[1] == s@[i as int + 1]);
                    }
                    if n - i > 2 {
                        assert(rest[2] == s@[i as int + 2]);
                    }
                }
                return false;
            }
            proof {
                assert(rest[1] == s@[i as int + 1]);
                assert(rest[2] == s@[i as int + 2]);
            }
            step = 3;
        } else if b0 == 0xF0 {
            if !(n - i > 3 && 0x90 <= s[i + 1] && s[i + 1] < 0xC0 && cont_byte(s[i + 2])
                && cont_byte(s[i + 3])) {
                proof {
                    if i + 1 < n {
                        assert(rest[1] == s@[i as int + 1]);
                    }
                    if n - i > 2 {
                        assert(rest[2] == s@[i as int + 2]);
                    }
                    if n - i > 3 {
                        assert(rest[3] == s@[i as int + 3]);
                    }
                }
                return false;
            }
            proof {
                assert(rest[1] == s@[i as int + 1]);
                assert(rest[2] == s@[i as int + 2]);
                assert(rest[3] == s@[i as int + 3]);
            }
            step = 4;
        } else if 0xF1 <= b0 && b0 <= 0xF3 {
            if !(n - i > 3 && cont_byte(s[i + 1]) && cont_byte(s[i + 2]) && cont_byte(s[i + 3])) {
                proof {
                    if i + 1 < n {
                        assert(rest[1] == s@[i as int + 1]);
                    }
                    if n - i > 2 {
                        assert(rest[2] == s@[i as int + 2]);
                    }
                    if n - i > 3 {
                        assert(rest[3] == s@[i as int + 3]);
                    }
                }
                return false;
            }
            proof {
                assert(rest[1] == s@[i as int + 1]);
                assert(rest[2] == s@[i as int + 2]);
                assert(rest[3] == s@[i as int + 3]);
            }
            step = 4;
        } else if b0 == 0xF4 {
            if !(n - i > 3 && 0x80 <= s[i + 1] && s[i + 1] < 0x90 && cont_byte(s[i + 2])
                && cont_byte(s[i + 3])) {
                proof {
                    if i + 1 < n {
                        assert(rest[1] == s@[i as int + 1]);
                    }
                    if n - i > 2 {
                        assert(rest[2] == s@[i as int + 2]);
                    }
                    if n - i > 3 {
                        assert(rest[3] == s@[i as int + 3]);
                    }
                }
                return false;
            }
            proof {
                assert(rest[1] == s@[i as int + 1]);
                assert(rest[2] == s@[i as int + 2]);
                assert(rest[3] == s@[i as int + 3]);
            }
            step = 4;
        } else {
            return false;
        }
        proof {
            assert(s@.skip(i as int).skip(step as int) =~= s@.skip(i as int + step as int));
        }
        i = i + step;
    }
    proof {
        assert(s@.skip(n as int) =~= Seq::<u8>::empty());
    }
    true
}

/// The textual form of a date-time, YYYY-MM-DD HH:MM:SS.
pub open spec fn datetime_repr(t: DateTime) -> Seq<u8> {
    padded(t.year as int, 4) + seq!['-' as u8] + padded(t.month as int, 2) + seq!['-' as u8]
        + padded(t.day as int, 2) + seq![' ' as u8] + padded(t.hour as int, 2) + seq![':' as u8]
        + padded(t.minute as int, 2) + seq![':' as u8] + padded(t.second as int, 2)
}

/// Builds the textual form of a date-time.
pub fn datetime_repr_bytes(t: &DateTime) -> (v: Vec<u8>)
    ensures
        v@ == datetime_repr(*t),
{
    let mut v: Vec<u8> = Vec::new();
    push_padded(&mut v, t.year, 4);
    v.push('-' as u8);
    push_padded(&mut v, t.month, 2);
    v.push('-' as u8);
    push_padded(&mut v, t.day, 2);
    v.push(' ' as u8);
    push_padded(&mut v, t.hour, 2);
    v.push(':' as u8);
    push_padded(&mut v, t.minute, 2);
    v.push(':' as u8);
    push_padded(&mut v, t.second, 2);
    proof {
        assert(v@ =~= datetime_repr(*t));
    }
    v
}

} // verus!
