//! The log file's line format: a UTC timestamp, the level and the message on
//! one line.

use vstd::prelude::*;
use crate::text::{chars_of, decimal, decimal_chars, extend_chars, string_of};

verus! {

pub const MAX_LOG_BYTES: u64 = 2097152;

pub open spec fn is_leap(y: int) -> bool {
    (y % 4 == 0 && y % 100 != 0) || y % 400 == 0
}

pub open spec fn year_days(y: int) -> int {
    if is_leap(y) {
        366
    } else {
        365
    }
}

pub open spec fn month_days(y: int, m: int) -> int {
    if m == 2 {
        if is_leap(y) {
            29
        } else {
            28
        }
    } else if m == 4 || m == 6 || m == 9 || m == 11 {
        30
    } else {
        31
    }
}

/// Days in the `n` years from `y0` on.
pub open spec fn span(y0: int, n: nat) -> int
    decreases n,
{
    if n == 0 {
        0
    } else {
        span(y0, (n - 1) as nat) + year_days(y0 + n - 1)
    }
}

/// Days in the months of year `y` before month `m`.
pub open spec fn days_to_month(y: int, m: nat) -> int
    decreases m,
{
    if m <= 1 {
        0
    } else {
        days_to_month(y, (m - 1) as nat) + month_days(y, m - 1)
    }
}

/// Day `days` after 1 January 1970 is the date `y`-`m`-`d`.
pub open spec fn is_civil_day(days: int, y: int, m: int, d: int) -> bool {
    &&& y >= 1970
    &&& 1 <= m <= 12
    &&& 1 <= d <= month_days(y, m)
    &&& span(1970, (y - 1970) as nat) + days_to_month(y, m as nat) + d - 1 == days
}

proof fn lemma_span_concat(y0: int, a: nat, b: nat)
    ensures
        span(y0, a + b) == span(y0, a) + span(y0 + a, b),
    decreases b,
{
    if b > 0 {
        lemma_span_concat(y0, a, (b - 1) as nat);
        assert(span(y0, a + b) == span(y0, (a + b - 1) as nat) + year_days(y0 + a + b - 1));
    }
}

/// Leap years among 1 ..= x (for x >= 0), by the Gregorian rule.
pub open spec fn leaps_upto(x: int) -> int {
    x / 4 - x / 100 + x / 400
}

proof fn lemma_leap_step(y: int)
    requires
        y >= 1,
    ensures
        year_days(y) == 365 + leaps_upto(y) - leaps_upto(y - 1),
{
    assert(y / 4 - (y - 1) / 4 == if y % 4 == 0 { 1int } else { 0int }) by (nonlinear_arith)
        requires
            y >= 1,
    ;
    assert(y / 100 - (y - 1) / 100 == if y % 100 == 0 { 1int } else { 0int }) by (nonlinear_arith)
        requires
            y >= 1,
    ;
    assert(y / 400 - (y - 1) / 400 == if y % 400 == 0 { 1int } else { 0int }) by (nonlinear_arith)
        requires
            y >= 1,
    ;
    assert(y % 400 == 0 ==> y % 100 == 0 && y % 4 == 0) by (nonlinear_arith);
    assert(y % 100 == 0 ==> y % 4 == 0) by (nonlinear_arith);
}

/// The days of the `n` years from 1970 on, in closed form.
proof fn lemma_span_closed(n: nat)
    ensures
        span(1970, n) == 365 * n + leaps_upto(1969 + n as int) - leaps_upto(1969),
    decreases n,
{
    if n > 0 {
        lemma_span_closed((n - 1) as nat);
        lemma_leap_step(1969 + n as int);
    }
}

proof fn lemma_eras(k: nat)
    ensures
        span(1970, 400 * k) == 146097 * k,
{
    lemma_span_closed(400 * k);
    assert((1969 + 400 * k) / 4 == 492 + 100 * k) by (nonlinear_arith);
    assert((1969 + 400 * k) / 100 == 19 + 4 * k) by (nonlinear_arith);
    assert((1969 + 400 * k) / 400 == 4 + k) by (nonlinear_arith);
    assert(leaps_upto(1969) == 477);
}

proof fn lemma_year_of_months(y: int)
    ensures
        days_to_month(y, 13) == year_days(y),
{
    reveal_with_fuel(days_to_month, 13);
}

fn leap(y: u64) -> (r: bool)
    ensures
        r == is_leap(y as int),
{
    (y % 4 == 0 && y % 100 != 0) || y % 400 == 0
}

fn year_len(y: u64) -> (r: u64)
    ensures
        r == year_days(y as int),
{
    if leap(y) {
        366
    } else {
        365
    }
}

fn month_len(y: u64, m: u64) -> (r: u64)
    ensures
        r == month_days(y as int, m as int),
{
    if m == 2 {
        if leap(y) {
            29
        } else {
            28
        }
    } else if m == 4 || m == 6 || m == 9 || m == 11 {
        30
    } else {
        31
    }
}

/// The UTC date and time of a Unix time: year, month, day, hour, minute, second.
pub fn civil_from_unix(secs: u64) -> (r: (i64, u32, u32, u32, u32, u32))
    ensures
        is_civil_day((secs / 86400) as int, r.0 as int, r.1 as int, r.2 as int),
        r.3 == (secs % 86400) / 3600,
        r.4 == (secs % 3600) / 60,
        r.5 == secs % 60,
{
    let days = secs / 86400;
    let rem = secs % 86400;
    let eras = days / 146097;
    let mut left = days % 146097;
    assert(eras <= 1500000000) by (nonlinear_arith)
        requires
            eras == days / 146097,
            days == secs / 86400,
    ;
    let mut y: u64 = 1970 + 400 * eras;
    proof {
        lemma_eras(eras as nat);
        assert(days == 146097 * eras + left) by (nonlinear_arith)
            requires
                eras == days / 146097,
                left == days % 146097,
        ;
        assert(left < 146097);
    }
    while left >= year_len(y)
        invariant
            1970 <= y <= 1970 + 400 * eras + 146097,
            eras <= 1500000000,
            0 <= days - 146097 * eras < 146097,
            y + left <= 1970 + 400 * eras + (days - 146097 * eras),
            span(1970, (y - 1970) as nat) + left == days,
        decreases left,
    {
        let yl = year_len(y);
        proof {
            lemma_span_concat(1970, (y - 1970) as nat, 1);
        }
        left = left - yl;
        y = y + 1;
    }
    let ghost year_left = left;
    let mut m: u64 = 1;
    proof {
        lemma_year_of_months(y as int);
    }
    while left >= month_len(y, m)
        invariant
            1 <= m <= 12,
            days_to_month(y as int, m as nat) + left == year_left,
            year_left < year_days(y as int),
            days_to_month(y as int, 13) == year_days(y as int),
        decreases 13 - m,
    {
        let ml = month_len(y, m);
        left = left - ml;
        m = m + 1;
        if m == 13 {
            assert(false);
        }
    }
    let d = left + 1;
    assert(secs % 3600 == (secs % 86400) % 3600) by (nonlinear_arith);
    assert(secs % 60 == (secs % 86400) % 60) by (nonlinear_arith);
    (y as i64, m as u32, d as u32, (rem / 3600) as u32, ((rem % 3600) / 60) as u32, (rem % 60) as u32)
}

/// `n` in decimal, padded with zeros to `width` digits.
pub open spec fn padded(n: nat, width: nat) -> Seq<char> {
    let s = decimal(n);
    if s.len() < width {
        Seq::new((width - s.len()) as nat, |i: int| '0') + s
    } else {
        s
    }
}

fn push_padded(out: &mut Vec<char>, n: u64, width: usize)
    ensures
        final(out)@ == old(out)@ + padded(n as nat, width as nat),
{
    let s = decimal_chars(n);
    let ghost base = out@;
    if s.len() < width {
        let k = width - s.len();
        for i in 0..k
            invariant
                out@ == base + Seq::new(i as nat, |j: int| '0'),
        {
            out.push('0');
            assert(out@ =~= base + Seq::new((i + 1) as nat, |j: int| '0'));
        }
    }
    extend_chars(out, &s);
    assert(out@ =~= base + padded(n as nat, width as nat));
}

/// `YYYY-MM-DD hh:mm:ss` of a UTC time.
pub open spec fn timestamp_text(y: nat, mo: nat, d: nat, h: nat, mi: nat, s: nat) -> Seq<char> {
    padded(y, 4) + "-"@ + padded(mo, 2) + "-"@ + padded(d, 2) + " "@ + padded(h, 2) + ":"@ + padded(mi, 2) + ":"@
        + padded(s, 2)
}

/// The timestamp of a log line for the Unix time `secs`.
pub fn timestamp_of(secs: u64) -> (r: String)
    ensures
        exists|y: i64, mo: u32, d: u32|
            #[trigger] is_civil_day((secs / 86400) as int, y as int, mo as int, d as int) && r@ == timestamp_text(
                y as nat,
                mo as nat,
                d as nat,
                ((secs % 86400) / 3600) as nat,
                ((secs % 3600) / 60) as nat,
                (secs % 60) as nat,
            ),
{
    let (y, mo, d, h, mi, s) = civil_from_unix(secs);
    let mut out: Vec<char> = Vec::new();
    push_padded(&mut out, y as u64, 4);
    extend_chars(&mut out, &chars_of("-"));
    push_padded(&mut out, mo as u64, 2);
    extend_chars(&mut out, &chars_of("-"));
    push_padded(&mut out, d as u64, 2);
    extend_chars(&mut out, &chars_of(" "));
    push_padded(&mut out, h as u64, 2);
    extend_chars(&mut out, &chars_of(":"));
    push_padded(&mut out, mi as u64, 2);
    extend_chars(&mut out, &chars_of(":"));
    push_padded(&mut out, s as u64, 2);
    assert(out@ =~= timestamp_text(y as nat, mo as nat, d as nat, h as nat, mi as nat, s as nat));
    string_of(&out)
}

/// The message on one line: line breaks become spaces.
pub open spec fn flatten_lines(s: Seq<char>) -> Seq<char> {
    s.map_values(|c: char| if c == '\n' || c == '\r' { ' ' } else { c })
}

/// One line of the log: `<timestamp> [<level>] <message>` and a newline.
pub fn log_line(timestamp: &str, level: &str, msg: &str) -> (r: String)
    ensures
        r@ == timestamp@ + " ["@ + level@ + "] "@ + flatten_lines(msg@) + "\n"@,
{
    let mut out = chars_of(timestamp);
    extend_chars(&mut out, &chars_of(" ["));
    extend_chars(&mut out, &chars_of(level));
    extend_chars(&mut out, &chars_of("] "));
    let m = chars_of(msg);
    let ghost base = out@;
    for i in 0..m.len()
        invariant
            out@ == base + flatten_lines(m@.take(i as int)),
    {
        let c = m[i];
        out.push(if c == '\n' || c == '\r' { ' ' } else { c });
        assert(out@ =~= base + flatten_lines(m@.take(i + 1)));
    }
    assert(m@.take(m@.len() as int) == m@);
    extend_chars(&mut out, &chars_of("\n"));
    string_of(&out)
}

} // verus!
