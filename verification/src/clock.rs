//! Timestamps for capsule names and displaced directories: the local
//! wall-clock time rendered as fourteen digits, `YYYYMMDDHHMMSS`.
//!
//! Only the reading of the clock is trusted; the rendering is verified.

use vstd::prelude::*;
use vstd::string::*;
use chrono::Datelike;
use chrono::Timelike;

verus! {

/// The character for the decimal digit `d`.
pub open spec fn digit_char(d: int) -> char {
    if d == 0 {
        '0'
    } else if d == 1 {
        '1'
    } else if d == 2 {
        '2'
    } else if d == 3 {
        '3'
    } else if d == 4 {
        '4'
    } else if d == 5 {
        '5'
    } else if d == 6 {
        '6'
    } else if d == 7 {
        '7'
    } else if d == 8 {
        '8'
    } else {
        '9'
    }
}

/// Every character of `s` is a decimal digit.
pub open spec fn is_digit_seq(s: Seq<char>) -> bool {
    forall|i: int| 0 <= i < s.len() ==> '0' as u32 <= #[trigger] (s[i] as u32) <= '9' as u32
}

/// `digit_char` stays within the digit characters.
proof fn lemma_digit_char_is_digit(d: int)
    ensures
        '0' as u32 <= digit_char(d) as u32 <= '9' as u32,
{
}

/// The one-character string for the decimal digit `d`.
fn digit_str(d: u32) -> (r: &'static str)
    requires
        d < 10,
    ensures
        r@ =~= seq![digit_char(d as int)],
{
    let r: &'static str = if d == 0 {
        "0"
    } else if d == 1 {
        "1"
    } else if d == 2 {
        "2"
    } else if d == 3 {
        "3"
    } else if d == 4 {
        "4"
    } else if d == 5 {
        "5"
    } else if d == 6 {
        "6"
    } else if d == 7 {
        "7"
    } else if d == 8 {
        "8"
    } else {
        "9"
    };
    proof {
        reveal_strlit("0");
        reveal_strlit("1");
        reveal_strlit("2");
        reveal_strlit("3");
        reveal_strlit("4");
        reveal_strlit("5");
        reveal_strlit("6");
        reveal_strlit("7");
        reveal_strlit("8");
        reveal_strlit("9");
    }
    r
}

/// `n` zero-padded to two decimal digits (modulo 100).
pub open spec fn spec_pad2(n: int) -> Seq<char> {
    seq![digit_char(n / 10 % 10), digit_char(n % 10)]
}

/// `n` zero-padded to four decimal digits (modulo 10000).
pub open spec fn spec_pad4(n: int) -> Seq<char> {
    seq![
        digit_char(n / 1000 % 10),
        digit_char(n / 100 % 10),
        digit_char(n / 10 % 10),
        digit_char(n % 10),
    ]
}

/// The clock fields rendered as `YYYYMMDDHHMMSS`.
pub open spec fn spec_timestamp(
    year: int,
    month: int,
    day: int,
    hour: int,
    minute: int,
    second: int,
) -> Seq<char> {
    spec_pad4(year) + spec_pad2(month) + spec_pad2(day) + spec_pad2(hour) + spec_pad2(minute)
        + spec_pad2(second)
}

fn push_pad2(out: &mut String, n: u32)
    requires
        n < 100,
    ensures
        final(out)@ == old(out)@ + spec_pad2(n as int),
{
    out.append(digit_str(n / 10 % 10));
    out.append(digit_str(n % 10));
    proof {
        assert(final(out)@ =~= old(out)@ + spec_pad2(n as int));
    }
}

fn push_pad4(out: &mut String, n: u32)
    requires
        n < 10000,
    ensures
        final(out)@ == old(out)@ + spec_pad4(n as int),
{
    out.append(digit_str(n / 1000 % 10));
    out.append(digit_str(n / 100 % 10));
    out.append(digit_str(n / 10 % 10));
    out.append(digit_str(n % 10));
    proof {
        assert(final(out)@ =~= old(out)@ + spec_pad4(n as int));
    }
}

/// Renders clock fields as the fourteen-digit timestamp `YYYYMMDDHHMMSS`.
pub fn format_timestamp(year: u32, month: u32, day: u32, hour: u32, minute: u32, second: u32) -> (r:
    String)
    requires
        year <= 9999,
        month < 100,
        day < 100,
        hour < 100,
        minute < 100,
        second < 100,
    ensures
        r@ == spec_timestamp(
            year as int,
            month as int,
            day as int,
            hour as int,
            minute as int,
            second as int,
        ),
        r@.len() == 14,
        is_digit_seq(r@),
{
    let mut out = String::new();
    push_pad4(&mut out, year);
    push_pad2(&mut out, month);
    push_pad2(&mut out, day);
    push_pad2(&mut out, hour);
    push_pad2(&mut out, minute);
    push_pad2(&mut out, second);
    proof {
        assert(out@ =~= spec_timestamp(
            year as int,
            month as int,
            day as int,
            hour as int,
            minute as int,
            second as int,
        ));
        assert forall|i: int| 0 <= i < out@.len() implies '0' as u32 <= #[trigger] (out@[i]
            as u32) <= '9' as u32 by {
            lemma_digit_char_is_digit(0);
        }
    }
    out
}

/// Relies on chrono's `Local::now` and the `Datelike`/`Timelike`
/// accessors: `month` is 1 to 12, `day` 1 to 31, `hour` below 24,
/// `minute` and `second` below 60; the year is unconstrained.
#[verifier::external_body]
fn local_now_fields() -> (r: (i32, u32, u32, u32, u32, u32))
    ensures
        1 <= r.1 <= 12,
        1 <= r.2 <= 31,
        r.3 < 24,
        r.4 < 60,
        r.5 < 60,
{
    let now = chrono::Local::now();
    (now.year(), now.month(), now.day(), now.hour(), now.minute(), now.second())
}

/// Reads the local clock and renders it as `YYYYMMDDHHMMSS`.  Years
/// outside the four-digit range are clamped to it, so the result always
/// has exactly fourteen digits, and is always the rendering of some
/// calendar reading: month 1 to 12, day 1 to 31, hour below 24, minute
/// and second below 60.
pub fn current_timestamp() -> (r: String)
    ensures
        r@.len() == 14,
        is_digit_seq(r@),
        exists|y: int, mo: int, d: int, h: int, mi: int, s: int|
            0 <= y <= 9999 && 1 <= mo <= 12 && 1 <= d <= 31 && 0 <= h < 24 && 0 <= mi < 60 && 0
                <= s < 60 && r@ == #[trigger] spec_timestamp(y, mo, d, h, mi, s),
{
    let (year, month, day, hour, minute, second) = local_now_fields();
    let y: u32 = if year < 0 {
        0
    } else if year > 9999 {
        9999
    } else {
        year as u32
    };
    let r = format_timestamp(y, month, day, hour, minute, second);
    proof {
        assert(r@ == spec_timestamp(
            y as int,
            month as int,
            day as int,
            hour as int,
            minute as int,
            second as int,
        ));
    }
    r
}

} // verus!
