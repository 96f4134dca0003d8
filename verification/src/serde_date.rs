//! Due dates: an optional calendar date with an explicit unset state,
//! a tolerant parser for free-form date expressions, ordering, and the
//! serialized (`yyyy-mm-dd`) and display (`Dow Mon DD`) renderings.
//!
//! A date is held as plain year, month and day fields; chrono is
//! consulted only for the clock and for the day of the week.

use vstd::prelude::*;
use chrono::Datelike;
use std::cmp::Ordering;
use crate::text::{dec_digits, digit_char, pad_u64, str_eq, zeros};

verus! {

/// A calendar date: year, month and day of the proleptic Gregorian
/// calendar. The library handles the years 0 through 9999 — exactly
/// what the four-digit serialized form carries; the clock is clamped a
/// year short of the top so date arithmetic stays inside the range.
#[derive(Debug, Clone, Copy, PartialEq, Eq, Structural)]
pub struct Ymd {
    pub year: i32,
    pub month: u8,
    pub day: u8,
}

/// Whether `y` is a leap year. The year is shifted by 400000, a
/// multiple of the 400-year cycle, so the arithmetic stays on
/// non-negative numbers.
pub open spec fn is_leap_year(y: int) -> bool {
    &&& (y + 400000) % 4 == 0
    &&& ((y + 400000) % 100 != 0 || (y + 400000) % 400 == 0)
}

/// The number of days in month `m` of year `y`.
pub open spec fn days_in_month(y: int, m: int) -> int {
    if m == 4 || m == 6 || m == 9 || m == 11 {
        30
    } else if m == 2 {
        if is_leap_year(y) {
            29
        } else {
            28
        }
    } else {
        31
    }
}

impl Ymd {
    /// The month and day name a real calendar date.
    pub open spec fn valid_md(self) -> bool {
        &&& 1 <= self.month <= 12
        &&& 1 <= self.day <= days_in_month(self.year as int, self.month as int)
    }

    /// A well-formed date of the library: a real calendar date within
    /// the years the serialized `yyyy-mm-dd` form can carry.
    pub open spec fn wf(self) -> bool {
        &&& self.valid_md()
        &&& 0 <= self.year <= 9999
    }
}

fn is_leap_year_exec(y: i32) -> (r: bool)
    requires
        -300000 <= y <= 500000,
    ensures
        r == is_leap_year(y as int),
{
    let z: u32 = (y + 400000) as u32;
    z % 4 == 0 && (z % 100 != 0 || z % 400 == 0)
}

fn days_in_month_exec(y: i32, m: u8) -> (r: u8)
    requires
        -300000 <= y <= 500000,
    ensures
        r as int == days_in_month(y as int, m as int),
{
    if m == 4 || m == 6 || m == 9 || m == 11 {
        30
    } else if m == 2 {
        if is_leap_year_exec(y) {
            29
        } else {
            28
        }
    } else {
        31
    }
}

/// The day after `d`.
pub open spec fn next_day(d: Ymd) -> Ymd {
    if d.day < days_in_month(d.year as int, d.month as int) {
        Ymd { year: d.year, month: d.month, day: (d.day + 1) as u8 }
    } else if d.month < 12 {
        Ymd { year: d.year, month: (d.month + 1) as u8, day: 1 }
    } else {
        Ymd { year: (d.year + 1) as i32, month: 1, day: 1 }
    }
}

/// The date `n` days after `d`.
pub open spec fn add_days_spec(d: Ymd, n: nat) -> Ymd
    decreases n,
{
    if n == 0 {
        d
    } else {
        add_days_spec(next_day(d), (n - 1) as nat)
    }
}

/// Advancing a valid date by one day lands on a valid date of the same
/// or the following year.
proof fn lemma_next_day_valid(d: Ymd)
    requires
        d.valid_md(),
        d.year < 400000,
    ensures
        next_day(d).valid_md(),
        d.year <= next_day(d).year <= d.year + 1,
        next_day(d).year == d.year + 1 ==> next_day(d).month == 1 && next_day(d).day == 1,
{
}

/// Days added within January stay in January while the month lasts.
proof fn lemma_add_days_in_january(d: Ymd, n: nat)
    requires
        d.valid_md(),
        d.month == 1,
        d.day + n <= 28,
    ensures
        add_days_spec(d, n) == (Ymd { year: d.year, month: 1, day: (d.day + n) as u8 }),
    decreases n,
{
    if n > 0 {
        lemma_add_days_in_january(next_day(d), (n - 1) as nat);
    }
}

/// Adding at most 27 days to a valid date yields a valid date, and
/// crosses at most one year boundary, landing early in January when it
/// does.
proof fn lemma_add_days_small(d: Ymd, n: nat)
    requires
        d.valid_md(),
        d.year < 399000,
        n <= 27,
    ensures
        add_days_spec(d, n).valid_md(),
        d.year <= add_days_spec(d, n).year <= d.year + 1,
        add_days_spec(d, n).year == d.year + 1 ==> add_days_spec(d, n).month == 1
            && add_days_spec(d, n).day <= n,
    decreases n,
{
    if n > 0 {
        let nx = next_day(d);
        lemma_next_day_valid(d);
        if nx.year == d.year + 1 {
            lemma_add_days_in_january(nx, (n - 1) as nat);
        } else {
            lemma_add_days_small(nx, (n - 1) as nat);
        }
    }
}

/// The date `n` days after `d`, for small `n`.
pub fn add_days(d: Ymd, n: u8) -> (r: Ymd)
    requires
        d.valid_md(),
        0 <= d.year <= 9998,
        n <= 7,
    ensures
        r == add_days_spec(d, n as nat),
        r.wf(),
        d.year <= r.year <= d.year + 1,
{
    proof {
        lemma_add_days_small(d, n as nat);
    }
    let mut cur = d;
    let mut i: u8 = 0;
    while i < n
        invariant
            i <= n,
            n <= 7,
            d.valid_md(),
            0 <= d.year <= 9998,
            cur == add_days_spec(d, i as nat),
            cur.valid_md(),
            d.year <= cur.year <= d.year + 1,
        decreases n - i,
    {
        proof {
            lemma_next_day_valid(cur);
            lemma_add_days_step(d, i as nat);
            lemma_add_days_small(d, (i + 1) as nat);
        }
        let dim = days_in_month_exec(cur.year, cur.month);
        if cur.day < dim {
            cur = Ymd { year: cur.year, month: cur.month, day: cur.day + 1 };
        } else if cur.month < 12 {
            cur = Ymd { year: cur.year, month: cur.month + 1, day: 1 };
        } else {
            cur = Ymd { year: cur.year + 1, month: 1, day: 1 };
        }
        i = i + 1;
    }
    cur
}

/// Adding one more day advances the far end of the sum.
proof fn lemma_add_days_step(d: Ymd, n: nat)
    ensures
        add_days_spec(d, n + 1) == add_days_spec(next_day(d), n),
        add_days_spec(d, n + 1) == next_day(add_days_spec(d, n)),
    decreases n,
{
    if n > 0 {
        lemma_add_days_step(next_day(d), (n - 1) as nat);
    }
}

/// The day of the week of a calendar date, numbered 0 for Monday
/// through 6 for Sunday.
pub uninterp spec fn weekday_index(y: int, m: int, d: int) -> int;

/// Relies on chrono's `NaiveDate::from_ymd_opt` and `NaiveDate::weekday`:
/// the day of the week of a valid date, a function of the date alone,
/// numbered 0 for Monday through 6 for Sunday.
#[verifier::external_body]
fn day_of_week(y: i32, m: u8, d: u8) -> (r: u8)
    requires
        1 <= m <= 12,
        1 <= d <= days_in_month(y as int, m as int),
        -262143 <= y <= 262142,
    ensures
        r as int == weekday_index(y as int, m as int, d as int),
        r < 7,
{
    let date = chrono::NaiveDate::from_ymd_opt(y, m as u32, d as u32).unwrap();
    date.weekday().num_days_from_monday() as u8
}

/// Relies on chrono's `Local::now` and `NaiveDate`: today's local
/// calendar date, a valid Gregorian date within chrono's year range.
#[verifier::external_body]
fn today_ymd() -> (r: (i32, u8, u8))
    ensures
        1 <= r.1 <= 12,
        1 <= r.2 <= days_in_month(r.0 as int, r.1 as int),
        -262143 <= r.0 <= 262142,
{
    let d = chrono::Local::now().date_naive();
    (d.year(), d.month() as u8, d.day() as u8)
}

/// The ASCII lower-case counterpart of `c`.
pub open spec fn lower_char(c: char) -> char {
    match c {
        'A' => 'a',
        'B' => 'b',
        'C' => 'c',
        'D' => 'd',
        'E' => 'e',
        'F' => 'f',
        'G' => 'g',
        'H' => 'h',
        'I' => 'i',
        'J' => 'j',
        'K' => 'k',
        'L' => 'l',
        'M' => 'm',
        'N' => 'n',
        'O' => 'o',
        'P' => 'p',
        'Q' => 'q',
        'R' => 'r',
        'S' => 's',
        'T' => 't',
        'U' => 'u',
        'V' => 'v',
        'W' => 'w',
        'X' => 'x',
        'Y' => 'y',
        'Z' => 'z',
        _ => c,
    }
}

fn lower(c: char) -> (r: char)
    ensures
        r == lower_char(c),
{
    match c {
        'A' => 'a',
        'B' => 'b',
        'C' => 'c',
        'D' => 'd',
        'E' => 'e',
        'F' => 'f',
        'G' => 'g',
        'H' => 'h',
        'I' => 'i',
        'J' => 'j',
        'K' => 'k',
        'L' => 'l',
        'M' => 'm',
        'N' => 'n',
        'O' => 'o',
        'P' => 'p',
        'Q' => 'q',
        'R' => 'r',
        'S' => 's',
        'T' => 't',
        'U' => 'u',
        'V' => 'v',
        'W' => 'w',
        'X' => 'x',
        'Y' => 'y',
        'Z' => 'z',
        _ => c,
    }
}

/// The value of a decimal digit character, or 10 for any other
/// character.
pub open spec fn digit_val(c: char) -> int {
    match c {
        '0' => 0,
        '1' => 1,
        '2' => 2,
        '3' => 3,
        '4' => 4,
        '5' => 5,
        '6' => 6,
        '7' => 7,
        '8' => 8,
        '9' => 9,
        _ => 10,
    }
}

pub open spec fn is_digit_char(c: char) -> bool {
    digit_val(c) < 10
}

fn digit_val_exec(c: char) -> (r: u8)
    ensures
        r as int == digit_val(c),
{
    match c {
        '0' => 0,
        '1' => 1,
        '2' => 2,
        '3' => 3,
        '4' => 4,
        '5' => 5,
        '6' => 6,
        '7' => 7,
        '8' => 8,
        '9' => 9,
        _ => 10,
    }
}

/// The month a lower-case three-letter name stands for, or 0 when the
/// letters name no month.
pub open spec fn month_from_chars(a: char, b: char, c: char) -> int {
    if a == 'j' && b == 'a' && c == 'n' {
        1
    } else if a == 'f' && b == 'e' && c == 'b' {
        2
    } else if a == 'm' && b == 'a' && c == 'r' {
        3
    } else if a == 'a' && b == 'p' && c == 'r' {
        4
    } else if a == 'm' && b == 'a' && c == 'y' {
        5
    } else if a == 'j' && b == 'u' && c == 'n' {
        6
    } else if a == 'j' && b == 'u' && c == 'l' {
        7
    } else if a == 'a' && b == 'u' && c == 'g' {
        8
    } else if a == 's' && b == 'e' && c == 'p' {
        9
    } else if a == 'o' && b == 'c' && c == 't' {
        10
    } else if a == 'n' && b == 'o' && c == 'v' {
        11
    } else if a == 'd' && b == 'e' && c == 'c' {
        12
    } else {
        0
    }
}

fn month_from_chars_exec(a: char, b: char, c: char) -> (r: u8)
    ensures
        r as int == month_from_chars(a, b, c),
{
    if a == 'j' && b == 'a' && c == 'n' {
        1
    } else if a == 'f' && b == 'e' && c == 'b' {
        2
    } else if a == 'm' && b == 'a' && c == 'r' {
        3
    } else if a == 'a' && b == 'p' && c == 'r' {
        4
    } else if a == 'm' && b == 'a' && c == 'y' {
        5
    } else if a == 'j' && b == 'u' && c == 'n' {
        6
    } else if a == 'j' && b == 'u' && c == 'l' {
        7
    } else if a == 'a' && b == 'u' && c == 'g' {
        8
    } else if a == 's' && b == 'e' && c == 'p' {
        9
    } else if a == 'o' && b == 'c' && c == 't' {
        10
    } else if a == 'n' && b == 'o' && c == 'v' {
        11
    } else if a == 'd' && b == 'e' && c == 'c' {
        12
    } else {
        0
    }
}

/// The day of the week a lower-case three-letter name stands for
/// (0 for Monday through 6 for Sunday), or 7 when the letters name no
/// weekday.
pub open spec fn weekday_from_chars(a: char, b: char, c: char) -> int {
    if a == 'm' && b == 'o' && c == 'n' {
        0
    } else if a == 't' && b == 'u' && c == 'e' {
        1
    } else if a == 'w' && b == 'e' && c == 'd' {
        2
    } else if a == 't' && b == 'h' && c == 'u' {
        3
    } else if a == 'f' && b == 'r' && c == 'i' {
        4
    } else if a == 's' && b == 'a' && c == 't' {
        5
    } else if a == 's' && b == 'u' && c == 'n' {
        6
    } else {
        7
    }
}

fn weekday_from_chars_exec(a: char, b: char, c: char) -> (r: u8)
    ensures
        r as int == weekday_from_chars(a, b, c),
{
    if a == 'm' && b == 'o' && c == 'n' {
        0
    } else if a == 't' && b == 'u' && c == 'e' {
        1
    } else if a == 'w' && b == 'e' && c == 'd' {
        2
    } else if a == 't' && b == 'h' && c == 'u' {
        3
    } else if a == 'f' && b == 'r' && c == 'i' {
        4
    } else if a == 's' && b == 'a' && c == 't' {
        5
    } else if a == 's' && b == 'u' && c == 'n' {
        6
    } else {
        7
    }
}

/// The weekday a three-letter expression names, or 7 when it names
/// none.
pub open spec fn weekday_word(s: Seq<char>) -> int {
    if s.len() == 3 {
        weekday_from_chars(lower_char(s[0]), lower_char(s[1]), lower_char(s[2]))
    } else {
        7
    }
}

/// Whether the expression is a short month name followed by a one- or
/// two-digit day.
pub open spec fn monthday_shape(s: Seq<char>) -> bool {
    &&& 4 <= s.len() <= 5
    &&& month_from_chars(lower_char(s[0]), lower_char(s[1]), lower_char(s[2])) != 0
    &&& is_digit_char(s[3])
    &&& (s.len() == 5 ==> is_digit_char(s[4]))
}

pub open spec fn monthday_month(s: Seq<char>) -> int {
    month_from_chars(lower_char(s[0]), lower_char(s[1]), lower_char(s[2]))
}

pub open spec fn monthday_day(s: Seq<char>) -> int {
    if s.len() == 4 {
        digit_val(s[3])
    } else {
        digit_val(s[3]) * 10 + digit_val(s[4])
    }
}

/// The year a month/day expression resolves to: the current year while
/// the pair has not yet passed, next year once it has. The comparison
/// uses the `month * 31 + day` ordinal, which is deliberately
/// approximate near month boundaries.
pub open spec fn rolled_year(today: Ymd, m: int, d: int) -> int {
    if today.month * 31 + today.day < m * 31 + d {
        today.year as int
    } else {
        today.year + 1
    }
}

/// The non-negative number of days from weekday `from` forward to
/// weekday `target` (0 when they are equal).
pub open spec fn weekday_delta(target: int, from: int) -> int {
    if target >= from {
        target - from
    } else {
        target + 7 - from
    }
}

/// Whether the expression has the literal `yyyy-mm-dd` shape.
pub open spec fn iso_shape(s: Seq<char>) -> bool {
    &&& s.len() == 10
    &&& s[4] == '-'
    &&& s[7] == '-'
    &&& is_digit_char(s[0])
    &&& is_digit_char(s[1])
    &&& is_digit_char(s[2])
    &&& is_digit_char(s[3])
    &&& is_digit_char(s[5])
    &&& is_digit_char(s[6])
    &&& is_digit_char(s[8])
    &&& is_digit_char(s[9])
}

/// The date a literal `yyyy-mm-dd` expression spells.
pub open spec fn iso_ymd(s: Seq<char>) -> Ymd {
    Ymd {
        year: (digit_val(s[0]) * 1000 + digit_val(s[1]) * 100 + digit_val(s[2]) * 10 + digit_val(
            s[3],
        )) as i32,
        month: (digit_val(s[5]) * 10 + digit_val(s[6])) as u8,
        day: (digit_val(s[8]) * 10 + digit_val(s[9])) as u8,
    }
}

/// What a free-form due-date expression means on a given day: the
/// keywords `today`/`tod` and `tomorrow`/`tom`, a short weekday name
/// (the next such day, today included), a short month name with a day
/// (rolled to next year once passed), or a literal `yyyy-mm-dd`; `None`
/// when the expression parses to no real date.
pub open spec fn parse_expr_spec(s: Seq<char>, today: Ymd) -> Option<Ymd> {
    if s == "today"@ || s == "tod"@ {
        Some(today)
    } else if s == "tomorrow"@ || s == "tom"@ {
        Some(add_days_spec(today, 1))
    } else if weekday_word(s) < 7 {
        Some(
            add_days_spec(
                today,
                weekday_delta(
                    weekday_word(s),
                    weekday_index(today.year as int, today.month as int, today.day as int),
                ) as nat,
            ),
        )
    } else if monthday_shape(s) {
        let m = monthday_month(s);
        let d = monthday_day(s);
        let y = rolled_year(today, m, d);
        if 1 <= d <= days_in_month(y, m) {
            Some(Ymd { year: y as i32, month: m as u8, day: d as u8 })
        } else {
            None
        }
    } else if iso_shape(s) {
        let d = iso_ymd(s);
        if d.valid_md() {
            Some(d)
        } else {
            None
        }
    } else {
        None
    }
}

/// An optional calendar date: either unset or a single day.
#[derive(Debug, Clone, Copy, PartialEq, Eq)]
pub struct SerdeDate {
    pub date: Option<Ymd>,
}

/// A due-date expression the parser rejected, carrying the offending
/// input.
#[derive(Debug, PartialEq, Eq)]
pub struct DateParseError {
    pub input: String,
}

impl SerdeDate {
    /// Well-formedness: a set date is a real calendar date within the
    /// representable years.
    pub open spec fn wf(self) -> bool {
        match self.date {
            Some(d) => d.wf(),
            None => true,
        }
    }

    /// Whether a date is set.
    pub fn is_some(&self) -> (r: bool)
        ensures
            r == (self.date is Some),
    {
        self.date.is_some()
    }

    /// Today's date, freshly read from the clock.
    pub fn today() -> (r: Self)
        ensures
            r.date is Some,
            r.wf(),
            r.date matches Some(d) && d.year <= 9998,
    {
        SerdeDate { date: Some(today_parts()) }
    }

    /// Parses a free-form due-date expression as of `today`; `None`
    /// means no due date. Rejected expressions are handed back in the
    /// error.
    pub fn try_from(value: Option<String>, today: Ymd) -> (r: Result<SerdeDate, DateParseError>)
        requires
            today.wf(),
            today.year <= 9998,
        ensures
            value is None ==> r == Ok::<SerdeDate, DateParseError>(SerdeDate { date: None }),
            value matches Some(v) ==> match parse_expr_spec(v@, today) {
                Some(d) => r matches Ok(sd) && sd.date == Some(d),
                None => r matches Err(e) && e.input@ == v@,
            },
            r matches Ok(sd) ==> sd.wf(),
    {
        let value = match value {
            None => { return Ok(SerdeDate { date: None }) },
            Some(v) => v,
        };
        if str_eq(value.as_str(), "today") || str_eq(value.as_str(), "tod") {
            return Ok(SerdeDate { date: Some(today) });
        }
        if str_eq(value.as_str(), "tomorrow") || str_eq(value.as_str(), "tom") {
            return Ok(SerdeDate { date: Some(add_days(today, 1)) });
        }
        let s = value.as_str();
        let n = s.unicode_len();
        if n == 3 {
            let w = weekday_from_chars_exec(
                lower(s.get_char(0)),
                lower(s.get_char(1)),
                lower(s.get_char(2)),
            );
            if w < 7 {
                let tw = day_of_week(today.year, today.month, today.day);
                let delta = if w >= tw {
                    w - tw
                } else {
                    w + 7 - tw
                };
                return Ok(SerdeDate { date: Some(add_days(today, delta)) });
            }
            return Err(DateParseError { input: value });
        }
        if n == 4 || n == 5 {
            let m = month_from_chars_exec(
                lower(s.get_char(0)),
                lower(s.get_char(1)),
                lower(s.get_char(2)),
            );
            if m != 0 {
                let v3 = digit_val_exec(s.get_char(3));
                if v3 < 10 {
                    let day: u8 = if n == 5 {
                        let v4 = digit_val_exec(s.get_char(4));
                        if v4 >= 10 {
                            return Err(DateParseError { input: value });
                        }
                        v3 * 10 + v4
                    } else {
                        v3
                    };
                    let ord_today = (today.month as u32) * 31 + (today.day as u32);
                    let ord_new = (m as u32) * 31 + (day as u32);
                    let year = if ord_today < ord_new {
                        today.year
                    } else {
                        today.year + 1
                    };
                    let dim = days_in_month_exec(year, m);
                    if 1 <= day && day <= dim {
                        return Ok(SerdeDate { date: Some(Ymd { year, month: m, day }) });
                    }
                    return Err(DateParseError { input: value });
                }
            }
            return Err(DateParseError { input: value });
        }
        if n == 10 {
            let dash_ok = s.get_char(4) == '-' && s.get_char(7) == '-';
            let v0 = digit_val_exec(s.get_char(0));
            let v1 = digit_val_exec(s.get_char(1));
            let v2 = digit_val_exec(s.get_char(2));
            let v3 = digit_val_exec(s.get_char(3));
            let v5 = digit_val_exec(s.get_char(5));
            let v6 = digit_val_exec(s.get_char(6));
            let v8 = digit_val_exec(s.get_char(8));
            let v9 = digit_val_exec(s.get_char(9));
            if dash_ok && v0 < 10 && v1 < 10 && v2 < 10 && v3 < 10 && v5 < 10 && v6 < 10 && v8 < 10
                && v9 < 10 {
                let year: i32 = (v0 as i32) * 1000 + (v1 as i32) * 100 + (v2 as i32) * 10 + (
                v3 as i32);
                let month: u8 = v5 * 10 + v6;
                let day: u8 = v8 * 10 + v9;
                if 1 <= month && month <= 12 {
                    let dim = days_in_month_exec(year, month);
                    if 1 <= day && day <= dim {
                        return Ok(SerdeDate { date: Some(Ymd { year, month, day }) });
                    }
                }
                return Err(DateParseError { input: value });
            }
            return Err(DateParseError { input: value });
        }
        Err(DateParseError { input: value })
    }
}

/// How two optional dates compare: set dates by calendar order, the
/// unset date after every set date and equal to itself.
pub open spec fn cmp_spec(a: SerdeDate, b: SerdeDate) -> Ordering {
    match (a.date, b.date) {
        (Some(x), Some(y)) => if x == y {
            Ordering::Equal
        } else if x.year < y.year || (x.year == y.year && (x.month < y.month || (x.month == y.month
            && x.day < y.day))) {
            Ordering::Less
        } else {
            Ordering::Greater
        },
        (None, None) => Ordering::Equal,
        (None, Some(_)) => Ordering::Greater,
        (Some(_), None) => Ordering::Less,
    }
}

/// The serialized rendering of an optional date: `yyyy-mm-dd`, or the
/// empty string when unset.
pub open spec fn serial_of(d: Option<Ymd>) -> Seq<char> {
    match d {
        None => Seq::empty(),
        Some(x) => zeros(4 - dec_digits(x.year as nat).len()) + dec_digits(x.year as nat) + "-"@
            + zeros(2 - dec_digits(x.month as nat).len()) + dec_digits(x.month as nat) + "-"@
            + zeros(2 - dec_digits(x.day as nat).len()) + dec_digits(x.day as nat),
    }
}

/// The short name of a weekday, numbered 0 for Monday through 6 for
/// Sunday.
pub open spec fn weekday_name(w: int) -> Seq<char> {
    if w == 0 {
        "Mon"@
    } else if w == 1 {
        "Tue"@
    } else if w == 2 {
        "Wed"@
    } else if w == 3 {
        "Thu"@
    } else if w == 4 {
        "Fri"@
    } else if w == 5 {
        "Sat"@
    } else {
        "Sun"@
    }
}

/// The short name of a month.
pub open spec fn month_name(m: int) -> Seq<char> {
    if m == 1 {
        "Jan"@
    } else if m == 2 {
        "Feb"@
    } else if m == 3 {
        "Mar"@
    } else if m == 4 {
        "Apr"@
    } else if m == 5 {
        "May"@
    } else if m == 6 {
        "Jun"@
    } else if m == 7 {
        "Jul"@
    } else if m == 8 {
        "Aug"@
    } else if m == 9 {
        "Sep"@
    } else if m == 10 {
        "Oct"@
    } else if m == 11 {
        "Nov"@
    } else {
        "Dec"@
    }
}

/// The display rendering of an optional date: `Dow Mon DD`, or the
/// empty string when unset.
pub open spec fn display_of(d: Option<Ymd>) -> Seq<char> {
    match d {
        None => Seq::empty(),
        Some(x) => weekday_name(weekday_index(x.year as int, x.month as int, x.day as int)) + " "@
            + month_name(x.month as int) + " "@ + zeros(2 - dec_digits(x.day as nat).len())
            + dec_digits(x.day as nat),
    }
}

fn weekday_str(w: u8) -> (r: &'static str)
    requires
        w < 7,
    ensures
        r@ == weekday_name(w as int),
{
    match w {
        0 => "Mon",
        1 => "Tue",
        2 => "Wed",
        3 => "Thu",
        4 => "Fri",
        5 => "Sat",
        _ => "Sun",
    }
}

fn month_str(m: u8) -> (r: &'static str)
    requires
        1 <= m <= 12,
    ensures
        r@ == month_name(m as int),
{
    match m {
        1 => "Jan",
        2 => "Feb",
        3 => "Mar",
        4 => "Apr",
        5 => "May",
        6 => "Jun",
        7 => "Jul",
        8 => "Aug",
        9 => "Sep",
        10 => "Oct",
        11 => "Nov",
        _ => "Dec",
    }
}

/// Reads a strict `yyyy-mm-dd` rendering back into a date.
fn parse_iso(s: &str) -> (r: Option<Ymd>)
    ensures
        match r {
            Some(d) => iso_shape(s@) && d == iso_ymd(s@) && d.valid_md() && 0 <= d.year <= 9999,
            None => !(iso_shape(s@) && iso_ymd(s@).valid_md()),
        },
{
    let n = s.unicode_len();
    if n != 10 {
        return None;
    }
    if !(s.get_char(4) == '-' && s.get_char(7) == '-') {
        return None;
    }
    let v0 = digit_val_exec(s.get_char(0));
    let v1 = digit_val_exec(s.get_char(1));
    let v2 = digit_val_exec(s.get_char(2));
    let v3 = digit_val_exec(s.get_char(3));
    let v5 = digit_val_exec(s.get_char(5));
    let v6 = digit_val_exec(s.get_char(6));
    let v8 = digit_val_exec(s.get_char(8));
    let v9 = digit_val_exec(s.get_char(9));
    if v0 < 10 && v1 < 10 && v2 < 10 && v3 < 10 && v5 < 10 && v6 < 10 && v8 < 10 && v9 < 10 {
        let year: i32 = (v0 as i32) * 1000 + (v1 as i32) * 100 + (v2 as i32) * 10 + (v3 as i32);
        let month: u8 = v5 * 10 + v6;
        let day: u8 = v8 * 10 + v9;
        if 1 <= month && month <= 12 {
            let dim = days_in_month_exec(year, month);
            if 1 <= day && day <= dim {
                return Some(Ymd { year, month, day });
            }
        }
        return None;
    }
    None
}

impl SerdeDate {
    /// Compares two optional dates; the unset date sorts after every
    /// set one.
    pub fn cmp(&self, other: &SerdeDate) -> (r: Ordering)
        ensures
            r == cmp_spec(*self, *other),
    {
        match (&self.date, &other.date) {
            (Some(x), Some(y)) => {
                if x.year == y.year && x.month == y.month && x.day == y.day {
                    Ordering::Equal
                } else if x.year < y.year || (x.year == y.year && (x.month < y.month || (x.month
                    == y.month && x.day < y.day))) {
                    Ordering::Less
                } else {
                    Ordering::Greater
                }
            },
            (None, None) => Ordering::Equal,
            (None, Some(_)) => Ordering::Greater,
            (Some(_), None) => Ordering::Less,
        }
    }

    /// The serialized rendering: `yyyy-mm-dd`, or the empty string when
    /// unset.
    pub fn to_serialized(&self) -> (r: String)
        requires
            self.wf(),
        ensures
            r@ == serial_of(self.date),
    {
        match &self.date {
            None => String::new(),
            Some(x) => {
                let mut r = pad_u64(x.year as u64, 4);
                r.append("-");
                let ms = pad_u64(x.month as u64, 2);
                r.append(ms.as_str());
                r.append("-");
                let ds = pad_u64(x.day as u64, 2);
                r.append(ds.as_str());
                r
            },
        }
    }

    /// The date a serialized rendering stands for: the empty string is
    /// the unset date, otherwise a strict `yyyy-mm-dd` rendering;
    /// anything else is handed back in the error.
    pub fn from_serialized(s: &str) -> (r: Result<SerdeDate, DateParseError>)
        ensures
            s@.len() == 0 ==> r == Ok::<SerdeDate, DateParseError>(SerdeDate { date: None }),
            s@.len() > 0 ==> if iso_shape(s@) && iso_ymd(s@).valid_md() {
                r matches Ok(sd) && sd.date == Some(iso_ymd(s@))
            } else {
                r matches Err(e) && e.input@ == s@
            },
            r matches Ok(sd) ==> sd.wf(),
    {
        if s.unicode_len() == 0 {
            return Ok(SerdeDate { date: None });
        }
        match parse_iso(s) {
            Some(d) => Ok(SerdeDate { date: Some(d) }),
            None => Err(DateParseError { input: s.to_owned() }),
        }
    }

    /// The display rendering: `Dow Mon DD`, or the empty string when
    /// unset.
    pub fn display_text(&self) -> (r: String)
        requires
            self.wf(),
        ensures
            r@ == display_of(self.date),
    {
        match &self.date {
            None => String::new(),
            Some(x) => {
                let w = day_of_week(x.year, x.month, x.day);
                let mut r = String::from_str(weekday_str(w));
                r.append(" ");
                r.append(month_str(x.month));
                r.append(" ");
                let ds = pad_u64(x.day as u64, 2);
                r.append(ds.as_str());
                r
            },
        }
    }
}

/// Unset sorts after every set date, every date equals itself, and two
/// set dates compare by the calendar order of their fields.
pub proof fn lemma_date_ordering(a: SerdeDate, b: SerdeDate)
    ensures
        cmp_spec(a, a) == Ordering::Equal,
        a.date is None && b.date is Some ==> cmp_spec(a, b) == Ordering::Greater,
        a.date is Some && b.date is None ==> cmp_spec(a, b) == Ordering::Less,
        cmp_spec(a, b) == Ordering::Equal <==> a.date == b.date,
        match (a.date, b.date) {
            (Some(x), Some(y)) => cmp_spec(a, b) == Ordering::Less <==> (x.year < y.year || (x.year
                == y.year && (x.month < y.month || (x.month == y.month && x.day < y.day)))),
            _ => true,
        },
{
}

proof fn lemma_digit_char_val(k: int)
    requires
        0 <= k <= 9,
    ensures
        digit_val(digit_char(k)) == k,
{
}

/// A value below 100, rendered and zero-padded to two characters,
/// shows its tens and ones digits.
proof fn lemma_pad2_digits(n: nat)
    requires
        n <= 99,
    ensures
        ({
            let p = zeros(2 - dec_digits(n).len()) + dec_digits(n);
            &&& p.len() == 2
            &&& p[0] == digit_char((n as int) / 10)
            &&& p[1] == digit_char((n as int) % 10)
        }),
{
    let p = zeros(2 - dec_digits(n).len()) + dec_digits(n);
    if n < 10 {
        assert(dec_digits(n) =~= seq![digit_char(n as int)]);
        assert(p =~= seq!['0', digit_char(n as int)]);
    } else {
        assert(dec_digits(n / 10) =~= seq![digit_char((n / 10) as int)]);
        assert(dec_digits(n) =~= seq![digit_char((n / 10) as int), digit_char((n % 10) as int)]);
        assert(p =~= dec_digits(n));
    }
}

/// A value below 10000, rendered and zero-padded to four characters,
/// shows its four decimal digits.
proof fn lemma_pad4_digits(n: nat)
    requires
        n <= 9999,
    ensures
        ({
            let p = zeros(4 - dec_digits(n).len()) + dec_digits(n);
            &&& p.len() == 4
            &&& p[0] == digit_char((n as int) / 1000)
            &&& p[1] == digit_char(((n as int) / 100) % 10)
            &&& p[2] == digit_char(((n as int) / 10) % 10)
            &&& p[3] == digit_char((n as int) % 10)
        }),
{
    let p = zeros(4 - dec_digits(n).len()) + dec_digits(n);
    vstd::arithmetic::div_mod::lemma_div_denominator(n as int, 10, 10);
    vstd::arithmetic::div_mod::lemma_div_denominator(n as int, 100, 10);
    if n < 10 {
        assert(dec_digits(n) =~= seq![digit_char(n as int)]);
        assert(p =~= seq!['0', '0', '0', digit_char(n as int)]);
    } else if n < 100 {
        assert(dec_digits(n / 10) =~= seq![digit_char((n / 10) as int)]);
        assert(dec_digits(n) =~= seq![digit_char((n / 10) as int), digit_char((n % 10) as int)]);
        assert(p =~= seq!['0', '0', digit_char((n / 10) as int), digit_char((n % 10) as int)]);
    } else if n < 1000 {
        assert(dec_digits(n / 100) =~= seq![digit_char((n / 100) as int)]);
        assert(dec_digits(n / 10) =~= seq![
            digit_char((n / 100) as int),
            digit_char(((n / 10) % 10) as int),
        ]);
        assert(dec_digits(n) =~= seq![
            digit_char((n / 100) as int),
            digit_char(((n / 10) % 10) as int),
            digit_char((n % 10) as int),
        ]);
        assert(p =~= seq![
            '0',
            digit_char((n / 100) as int),
            digit_char(((n / 10) % 10) as int),
            digit_char((n % 10) as int),
        ]);
    } else {
        assert(dec_digits(n / 1000) =~= seq![digit_char((n / 1000) as int)]);
        assert(dec_digits(n / 100) =~= seq![
            digit_char((n / 1000) as int),
            digit_char(((n / 100) % 10) as int),
        ]);
        assert(dec_digits(n / 10) =~= seq![
            digit_char((n / 1000) as int),
            digit_char(((n / 100) % 10) as int),
            digit_char(((n / 10) % 10) as int),
        ]);
        assert(dec_digits(n) =~= seq![
            digit_char((n / 1000) as int),
            digit_char(((n / 100) % 10) as int),
            digit_char(((n / 10) % 10) as int),
            digit_char((n % 10) as int),
        ]);
        assert(p =~= dec_digits(n));
    }
}

/// Serialization round trip: the serialized form of a set well-formed
/// date has the literal `yyyy-mm-dd` shape and spells the same date
/// back, so deserialization inverts serialization. (The unset date
/// serializes to the empty string, which deserializes to unset.)
pub proof fn lemma_serial_round_trip(d: Ymd)
    requires
        d.wf(),
    ensures
        serial_of(Some(d)).len() == 10,
        iso_shape(serial_of(Some(d))),
        iso_ymd(serial_of(Some(d))) == d,
{
    reveal_strlit("-");
    let y = d.year as nat;
    let m = d.month as nat;
    let dd = d.day as nat;
    lemma_pad4_digits(y);
    lemma_pad2_digits(m);
    lemma_pad2_digits(dd);
    let py = zeros(4 - dec_digits(y).len()) + dec_digits(y);
    let pm = zeros(2 - dec_digits(m).len()) + dec_digits(m);
    let pd = zeros(2 - dec_digits(dd).len()) + dec_digits(dd);
    let s = serial_of(Some(d));
    assert(s =~= py + "-"@ + pm + "-"@ + pd);
    lemma_digit_char_val((y as int) / 1000);
    lemma_digit_char_val(((y as int) / 100) % 10);
    lemma_digit_char_val(((y as int) / 10) % 10);
    lemma_digit_char_val((y as int) % 10);
    lemma_digit_char_val((m as int) / 10);
    lemma_digit_char_val((m as int) % 10);
    lemma_digit_char_val((dd as int) / 10);
    lemma_digit_char_val((dd as int) % 10);
    vstd::arithmetic::div_mod::lemma_fundamental_div_mod(y as int, 10);
    vstd::arithmetic::div_mod::lemma_fundamental_div_mod((y as int) / 10, 10);
    vstd::arithmetic::div_mod::lemma_fundamental_div_mod((y as int) / 100, 10);
    vstd::arithmetic::div_mod::lemma_div_denominator(y as int, 10, 10);
    vstd::arithmetic::div_mod::lemma_div_denominator(y as int, 100, 10);
    vstd::arithmetic::div_mod::lemma_fundamental_div_mod(m as int, 10);
    vstd::arithmetic::div_mod::lemma_fundamental_div_mod(dd as int, 10);
    assert(iso_ymd(s) == d);
}

/// Today's date as plain fields, clamped so that a year of date
/// arithmetic stays within the serializable years (the clamp is
/// unreachable between the years 0 and 9998).
pub fn today_parts() -> (r: Ymd)
    ensures
        r.wf(),
        r.year <= 9998,
{
    let (y, m, d) = today_ymd();
    if y < 0 {
        Ymd { year: 0, month: 1, day: 1 }
    } else if y > 9998 {
        Ymd { year: 9998, month: 12, day: 31 }
    } else {
        Ymd { year: y, month: m, day: d }
    }
}

} // verus!
