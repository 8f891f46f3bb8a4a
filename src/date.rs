//! Calendar dates written as `YYYY-M-D`.
use vstd::prelude::*;

use crate::text::{has_prefix_at, lemma_prefix_char, push_char};

verus! {

/// A calendar day without time zone. Values read from text are held as
/// written (up to four year digits and two month and day digits) and are
/// checked with [`valid_date`] before the day is accepted.
#[derive(Clone, Copy, Debug, PartialEq, Eq, Hash, Structural)]
pub struct CalendarDate {
    pub year: u16,
    pub month: u8,
    pub day: u8,
}

impl CalendarDate {
    pub fn new(year: u16, month: u8, day: u8) -> (r: CalendarDate)
        ensures
            r == (CalendarDate { year, month, day }),
    {
        CalendarDate { year, month, day }
    }
}

pub open spec fn is_leap_year(y: int) -> bool {
    y % 4 == 0 && (y % 100 != 0 || y % 400 == 0)
}

pub open spec fn days_in_month(y: int, m: int) -> int {
    if m == 2 {
        if is_leap_year(y) {
            29
        } else {
            28
        }
    } else if m == 4 || m == 6 || m == 9 || m == 11 {
        30
    } else {
        31
    }
}

/// The day exists in the proleptic Gregorian calendar.
pub open spec fn valid_ymd(y: int, m: int, d: int) -> bool {
    1 <= m <= 12 && 1 <= d <= days_in_month(y, m)
}

pub open spec fn valid_date(d: CalendarDate) -> bool {
    valid_ymd(d.year as int, d.month as int, d.day as int)
}

/// A number that orders dates chronologically (for valid dates, and for any
/// month and day below one hundred).
pub open spec fn date_ord(d: CalendarDate) -> int {
    d.year * 10000 + d.month * 100 + d.day
}

pub fn date_ord_exec(d: CalendarDate) -> (r: u32)
    ensures
        r == date_ord(d),
{
    d.year as u32 * 10000 + d.month as u32 * 100 + d.day as u32
}

/// Relies on chrono's `NaiveDate::from_ymd_opt`, which returns `None` exactly
/// when the day does not exist in the proleptic Gregorian calendar or the
/// year is out of its range (every year that a `u16` holds is inside it).
#[verifier::external_body]
fn calendar_day_exists(year: u16, month: u8, day: u8) -> (r: bool)
    ensures
        r == valid_ymd(year as int, month as int, day as int),
{
    chrono::NaiveDate::from_ymd_opt(year as i32, month as u32, day as u32).is_some()
}

pub fn is_valid_date(d: CalendarDate) -> (r: bool)
    ensures
        r == valid_date(d),
{
    calendar_day_exists(d.year, d.month, d.day)
}

pub open spec fn is_digit(c: char) -> bool {
    '0' <= c <= '9'
}

pub open spec fn digit_val(c: char) -> int {
    c as int - '0' as int
}

/// How many digits (at most `max`) stand in `s` from `pos` on.
pub open spec fn digit_run(s: Seq<char>, pos: int, max: nat) -> nat
    decreases max,
{
    if max == 0 || pos < 0 || pos >= s.len() || !is_digit(s[pos]) {
        0
    } else {
        1 + digit_run(s, pos + 1, (max - 1) as nat)
    }
}

/// The decimal number written by `s[from..to]`.
pub open spec fn digits_value(s: Seq<char>, from: int, to: int) -> int
    decreases to - from,
{
    if to <= from {
        0
    } else {
        digits_value(s, from, to - 1) * 10 + digit_val(s[to - 1])
    }
}

pub open spec fn pow10(k: nat) -> int
    decreases k,
{
    if k == 0 {
        1
    } else {
        10 * pow10((k - 1) as nat)
    }
}

/// Reads `YYYY-M-D` (four year digits, one or two month and day digits) at
/// `pos`: the date as written and the index after it, or `None` when the
/// text has another shape.
pub open spec fn scan_date(s: Seq<char>, pos: int) -> Option<(CalendarDate, int)> {
    let m = digit_run(s, pos + 5, 2);
    let d = digit_run(s, pos + 6 + m, 2);
    if digit_run(s, pos, 4) == 4 && has_prefix_at(s, pos + 4, seq!['-']) && m >= 1
        && has_prefix_at(s, pos + 5 + m, seq!['-']) && d >= 1 {
        Some(
            (
                CalendarDate {
                    year: digits_value(s, pos, pos + 4) as u16,
                    month: digits_value(s, pos + 5, pos + 5 + m) as u8,
                    day: digits_value(s, pos + 6 + m, pos + 6 + m + d) as u8,
                },
                pos + 6 + m + d,
            ),
        )
    } else {
        None
    }
}

fn digit_run_exec(v: &Vec<char>, pos: usize, max: usize) -> (r: usize)
    ensures
        r == digit_run(v@, pos as int, max as nat),
        r <= max,
        r == 0 || pos + r <= v@.len(),
        forall|i: int| pos <= i < pos + r ==> is_digit(#[trigger] v@[i]),
{
    let mut k: usize = 0;
    while k < max && pos < v.len() && k < v.len() - pos && '0' <= v[pos + k] && v[pos + k] <= '9'
        invariant
            k <= max,
            pos + k <= v.len() || k == 0,
            forall|i: int| pos <= i < pos + k ==> is_digit(#[trigger] v@[i]),
            digit_run(v@, pos as int, max as nat) == k + digit_run(
                v@,
                pos + k,
                (max - k) as nat,
            ),
        decreases max - k,
    {
        k = k + 1;
    }
    k
}

proof fn lemma_digits_value_step(s: Seq<char>, from: int, to: int)
    requires
        from <= to,
    ensures
        digits_value(s, from, to + 1) == digits_value(s, from, to) * 10 + digit_val(s[to]),
{
}

fn digits_value_exec(v: &Vec<char>, from: usize, to: usize) -> (r: u32)
    requires
        from <= to <= v@.len(),
        to - from <= 4,
        forall|i: int| from <= i < to ==> is_digit(#[trigger] v@[i]),
    ensures
        r == digits_value(v@, from as int, to as int),
        r < pow10((to - from) as nat),
{
    let mut val: u32 = 0;
    let mut i: usize = from;
    proof {
        reveal_with_fuel(pow10, 5);
    }
    while i < to
        invariant
            from <= i <= to <= v@.len(),
            to - from <= 4,
            forall|j: int| from <= j < to ==> is_digit(#[trigger] v@[j]),
            val == digits_value(v@, from as int, i as int),
            val < pow10((i - from) as nat),
            pow10((i - from) as nat) <= 10000 || i == to,
        decreases to - i,
    {
        assert(is_digit(v@[i as int]));
        proof {
            reveal_with_fuel(pow10, 5);
            lemma_digits_value_step(v@, from as int, i as int);
            assert(pow10((i + 1 - from) as nat) == 10 * pow10((i - from) as nat));
        }
        val = val * 10 + (v[i] as u32 - '0' as u32);
        i = i + 1;
    }
    val
}

/// Reads a date written `YYYY-M-D` at `pos` (see [`scan_date`]).
pub fn scan_date_exec(v: &Vec<char>, pos: usize) -> (r: Option<(CalendarDate, usize)>)
    ensures
        r matches Some((d, e)) ==> scan_date(v@, pos as int) == Some((d, e as int)) && pos < e
            <= v@.len(),
        r is None ==> scan_date(v@, pos as int) is None,
{
    let ghost s = v@;
    proof {
        lemma_prefix_char(s, pos + 4, '-');
    }
    if pos > v.len() || v.len() - pos < 5 {
        return None;
    }
    let y = digit_run_exec(v, pos, 4);
    if y != 4 || v[pos + 4] != '-' {
        return None;
    }
    let m = digit_run_exec(v, pos + 5, 2);
    proof {
        lemma_prefix_char(s, pos + 5 + m, '-');
    }
    if m == 0 || v.len() - (pos + 5) <= m || v[pos + 5 + m] != '-' {
        return None;
    }
    let d = digit_run_exec(v, pos + 6 + m, 2);
    if d == 0 {
        return None;
    }
    assert(is_digit(s[pos + 6 + m + d - 1]));
    let year = digits_value_exec(v, pos, pos + 4);
    let month = digits_value_exec(v, pos + 5, pos + 5 + m);
    let day = digits_value_exec(v, pos + 6 + m, pos + 6 + m + d);
    proof {
        reveal_with_fuel(pow10, 5);
    }
    Some((CalendarDate { year: year as u16, month: month as u8, day: day as u8 }, pos + 6 + m + d))
}

pub open spec fn digit_char(n: int) -> char {
    seq!['0', '1', '2', '3', '4', '5', '6', '7', '8', '9'][n]
}

/// `n` written with exactly `width` digits, padded with zeros.
pub open spec fn padded(n: int, width: nat) -> Seq<char>
    decreases width,
{
    if width == 0 {
        Seq::empty()
    } else {
        padded(n / 10, (width - 1) as nat).push(digit_char(n % 10))
    }
}

/// A year written with four digits, or, above 9999, with a `+` and all
/// its digits.
pub open spec fn render_year(y: int) -> Seq<char> {
    if y <= 9999 {
        padded(y, 4)
    } else {
        seq!['+'] + padded(y, 5)
    }
}

/// A date written `YYYY-MM-DD` (a year above 9999 as `+YYYYY`).
pub open spec fn render_date(d: CalendarDate) -> Seq<char> {
    render_year(d.year as int) + seq!['-'] + padded(d.month as int, 2) + seq!['-'] + padded(
        d.day as int,
        2,
    )
}

fn digit_char_exec(n: u32) -> (r: char)
    requires
        n < 10,
    ensures
        r == digit_char(n as int),
{
    match n {
        0 => '0',
        1 => '1',
        2 => '2',
        3 => '3',
        4 => '4',
        5 => '5',
        6 => '6',
        7 => '7',
        8 => '8',
        _ => '9',
    }
}

fn push_padded(s: &mut String, n: u32, width: usize)
    requires
        width <= 5,
    ensures
        final(s)@ == old(s)@ + padded(n as int, width as nat),
    decreases width,
{
    if width == 0 {
        assert(old(s)@ + padded(n as int, 0) =~= old(s)@);
        return;
    }
    push_padded(s, n / 10, width - 1);
    push_char(s, digit_char_exec(n % 10));
    assert(final(s)@ =~= old(s)@ + padded(n as int, width as nat));
}

/// Appends the date written `YYYY-MM-DD`.
pub fn push_date(s: &mut String, d: CalendarDate)
    ensures
        final(s)@ == old(s)@ + render_date(d),
{
    if d.year <= 9999 {
        push_padded(s, d.year as u32, 4);
    } else {
        push_char(s, '+');
        push_padded(s, d.year as u32, 5);
    }
    push_char(s, '-');
    push_padded(s, d.month as u32, 2);
    push_char(s, '-');
    push_padded(s, d.day as u32, 2);
    assert(final(s)@ =~= old(s)@ + render_date(d));
}

} // verus!
