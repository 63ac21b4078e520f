//! Calendar dates without a time component, and the strict `YYYY-MM-DD`
//! due-date grammar: four digits, a hyphen, two digits, a hyphen, two digits,
//! naming a real calendar date (leap years respected).

use vstd::prelude::*;
use vstd::arithmetic::div_mod::lemma_fundamental_div_mod;
use vstd::arithmetic::div_mod::lemma_div_denominator;

verus! {

/// A calendar date. A `Date` carried by a task is expected to satisfy
/// `date_valid`; the parser only ever produces such dates.
#[derive(Clone, Copy, Debug, PartialEq, Eq, Structural)]
pub struct Date {
    pub year: u32,
    pub month: u32,
    pub day: u32,
}

/// The one error of due-date parsing: the text is not a well-formed
/// `YYYY-MM-DD` date, or names no real calendar date.
#[derive(Clone, Copy, Debug, PartialEq, Eq, Structural)]
pub struct DateFormatError;

pub open spec fn is_leap_year(y: int) -> bool {
    (y % 4 == 0 && y % 100 != 0) || y % 400 == 0
}

pub open spec fn days_in_month(y: int, m: int) -> int {
    if m == 2 {
        if is_leap_year(y) {
            29
        } else {
            28
        }
    } else if m == 4 || m == 6 || m == 9 || m == 11 {
        30
    } else if 1 <= m <= 12 {
        31
    } else {
        0
    }
}

/// A date the library accepts: a real calendar date with a four-digit year.
pub open spec fn date_valid(d: Date) -> bool {
    &&& d.year <= 9999
    &&& 1 <= d.month <= 12
    &&& 1 <= d.day <= days_in_month(d.year as int, d.month as int)
}

pub open spec fn digit_char(d: int) -> char {
    if d == 0 {
        '0'
    } else if d == 1 {
        '1'
    } else if d == 2 {
        '2'
    } else if d == 3 {
        '3'
    } else if d == 4 {
        '4'
    } else if d == 5 {
        '5'
    } else if d == 6 {
        '6'
    } else if d == 7 {
        '7'
    } else if d == 8 {
        '8'
    } else {
        '9'
    }
}

/// The value of a decimal digit character, or -1 for any other character.
pub open spec fn digit_val(c: char) -> int {
    if c == '0' {
        0
    } else if c == '1' {
        1
    } else if c == '2' {
        2
    } else if c == '3' {
        3
    } else if c == '4' {
        4
    } else if c == '5' {
        5
    } else if c == '6' {
        6
    } else if c == '7' {
        7
    } else if c == '8' {
        8
    } else if c == '9' {
        9
    } else {
        -1
    }
}

pub open spec fn is_digit_char(c: char) -> bool {
    digit_val(c) >= 0
}

/// The ten characters `YYYY-MM-DD` of a date.
pub open spec fn date_chars(d: Date) -> Seq<char> {
    seq![
        digit_char(d.year as int / 1000),
        digit_char((d.year as int / 100) % 10),
        digit_char((d.year as int / 10) % 10),
        digit_char(d.year as int % 10),
        '-',
        digit_char(d.month as int / 10),
        digit_char(d.month as int % 10),
        '-',
        digit_char(d.day as int / 10),
        digit_char(d.day as int % 10),
    ]
}

/// What a ten-character sequence parses to: `Some` exactly when it has the
/// shape `YYYY-MM-DD` and names a valid calendar date.
pub open spec fn parse_date_seq(s: Seq<char>) -> Option<Date> {
    if s.len() == 10 && is_digit_char(s[0]) && is_digit_char(s[1]) && is_digit_char(s[2])
        && is_digit_char(s[3]) && s[4] == '-' && is_digit_char(s[5]) && is_digit_char(s[6])
        && s[7] == '-' && is_digit_char(s[8]) && is_digit_char(s[9]) {
        let d = Date {
            year: (digit_val(s[0]) * 1000 + digit_val(s[1]) * 100 + digit_val(s[2]) * 10
                + digit_val(s[3])) as u32,
            month: (digit_val(s[5]) * 10 + digit_val(s[6])) as u32,
            day: (digit_val(s[8]) * 10 + digit_val(s[9])) as u32,
        };
        if date_valid(d) {
            Some(d)
        } else {
            None
        }
    } else {
        None
    }
}

pub fn digit_of(c: char) -> (r: Option<u32>)
    ensures
        match r {
            Some(v) => v < 10 && digit_val(c) == v,
            None => !is_digit_char(c),
        },
{
    if c == '0' {
        Some(0)
    } else if c == '1' {
        Some(1)
    } else if c == '2' {
        Some(2)
    } else if c == '3' {
        Some(3)
    } else if c == '4' {
        Some(4)
    } else if c == '5' {
        Some(5)
    } else if c == '6' {
        Some(6)
    } else if c == '7' {
        Some(7)
    } else if c == '8' {
        Some(8)
    } else if c == '9' {
        Some(9)
    } else {
        None
    }
}

pub fn char_of_digit(d: u32) -> (c: char)
    requires
        d < 10,
    ensures
        c == digit_char(d as int),
{
    if d == 0 {
        '0'
    } else if d == 1 {
        '1'
    } else if d == 2 {
        '2'
    } else if d == 3 {
        '3'
    } else if d == 4 {
        '4'
    } else if d == 5 {
        '5'
    } else if d == 6 {
        '6'
    } else if d == 7 {
        '7'
    } else if d == 8 {
        '8'
    } else {
        '9'
    }
}

pub fn leap_year(y: u32) -> (r: bool)
    ensures
        r == is_leap_year(y as int),
{
    (y % 4 == 0 && y % 100 != 0) || y % 400 == 0
}

pub fn month_days(y: u32, m: u32) -> (r: u32)
    ensures
        r == days_in_month(y as int, m as int),
{
    if m == 2 {
        if leap_year(y) {
            29
        } else {
            28
        }
    } else if m == 4 || m == 6 || m == 9 || m == 11 {
        30
    } else if 1 <= m && m <= 12 {
        31
    } else {
        0
    }
}

pub fn date_valid_exec(d: &Date) -> (r: bool)
    ensures
        r == date_valid(*d),
{
    d.year <= 9999 && 1 <= d.month && d.month <= 12 && 1 <= d.day && d.day <= month_days(
        d.year,
        d.month,
    )
}

/// Parse the ten characters at `start` as a date.
pub fn parse_date_chars(s: &Vec<char>, start: usize) -> (r: Option<Date>)
    requires
        start + 10 <= s@.len(),
    ensures
        r == parse_date_seq(s@.subrange(start as int, start as int + 10)),
        r matches Some(d) ==> date_valid(d),
{
    let ghost t = s@.subrange(start as int, start as int + 10);
    let n: usize = s.len();
    proof {
        assert(n == s@.len());
    }
    let y0 = digit_of(s[start]);
    let y1 = digit_of(s[start + 1]);
    let y2 = digit_of(s[start + 2]);
    let y3 = digit_of(s[start + 3]);
    let m0 = digit_of(s[start + 5]);
    let m1 = digit_of(s[start + 6]);
    let d0 = digit_of(s[start + 8]);
    let d1 = digit_of(s[start + 9]);
    proof {
        assert(t.len() == 10);
        assert(t[0] == s@[start as int]);
        assert(t[4] == s@[start as int + 4]);
        assert(t[7] == s@[start as int + 7]);
    }
    match (y0, y1, y2, y3, m0, m1, d0, d1) {
        (
            Some(y0),
            Some(y1),
            Some(y2),
            Some(y3),
            Some(m0),
            Some(m1),
            Some(d0),
            Some(d1),
        ) => {
            if s[start + 4] == '-' && s[start + 7] == '-' {
                let d = Date {
                    year: y0 * 1000 + y1 * 100 + y2 * 10 + y3,
                    month: m0 * 10 + m1,
                    day: d0 * 10 + d1,
                };
                if date_valid_exec(&d) {
                    Some(d)
                } else {
                    None
                }
            } else {
                None
            }
        },
        _ => None,
    }
}

/// Parse a whole string as a due date; anything but a valid `YYYY-MM-DD`
/// is rejected.
pub fn parse_date_str(input: &str) -> (r: Option<Date>)
    ensures
        r == parse_date_seq(input@),
        r matches Some(d) ==> date_valid(d),
{
    let n = input.unicode_len();
    if n != 10 {
        return None;
    }
    let mut chars: Vec<char> = Vec::new();
    let mut i: usize = 0;
    while i < 10
        invariant
            input@.len() == 10,
            i <= 10,
            chars@ == input@.subrange(0, i as int),
        decreases 10 - i,
    {
        chars.push(input.get_char(i));
        proof {
            assert(chars@ =~= input@.subrange(0, i as int + 1));
        }
        i = i + 1;
    }
    proof {
        assert(chars@ =~= input@);
    }
    let r = parse_date_chars(&chars, 0);
    proof {
        assert(chars@.subrange(0, 10) =~= input@);
    }
    r
}

/// Recombining the four decimal digits of a number below 10000 gives the
/// number back.
proof fn lemma_recompose_year(y: int)
    requires
        0 <= y <= 9999,
    ensures
        (y / 1000) * 1000 + ((y / 100) % 10) * 100 + ((y / 10) % 10) * 10 + y % 10 == y,
        0 <= y / 1000 <= 9,
        0 <= (y / 100) % 10 <= 9,
        0 <= (y / 10) % 10 <= 9,
        0 <= y % 10 <= 9,
{
    lemma_fundamental_div_mod(y, 10);
    lemma_fundamental_div_mod(y / 10, 10);
    lemma_fundamental_div_mod(y / 100, 10);
    lemma_div_denominator(y, 10, 10);
    lemma_div_denominator(y, 100, 10);
    assert(0 <= y % 10 < 10) by {
        vstd::arithmetic::div_mod::lemma_mod_division_less_than_divisor(y, 10);
    }
    assert(0 <= (y / 10) % 10 < 10) by {
        vstd::arithmetic::div_mod::lemma_mod_division_less_than_divisor(y / 10, 10);
    }
    assert(0 <= (y / 100) % 10 < 10) by {
        vstd::arithmetic::div_mod::lemma_mod_division_less_than_divisor(y / 100, 10);
    }
}

proof fn lemma_recompose_two(m: int)
    requires
        0 <= m <= 99,
    ensures
        (m / 10) * 10 + m % 10 == m,
        0 <= m / 10 <= 9,
        0 <= m % 10 <= 9,
{
    lemma_fundamental_div_mod(m, 10);
    assert(0 <= m % 10 < 10) by {
        vstd::arithmetic::div_mod::lemma_mod_division_less_than_divisor(m, 10);
    }
}

/// The decimal digits of a four-digit number are digits.
pub proof fn lemma_year_digit_bounds(y: int)
    requires
        0 <= y <= 9999,
    ensures
        0 <= y / 1000 <= 9,
        0 <= (y / 100) % 10 <= 9,
        0 <= (y / 10) % 10 <= 9,
        0 <= y % 10 <= 9,
{
    lemma_recompose_year(y);
}

/// The decimal digits of a two-digit number are digits.
pub proof fn lemma_two_digit_bounds(m: int)
    requires
        0 <= m <= 99,
    ensures
        0 <= m / 10 <= 9,
        0 <= m % 10 <= 9,
{
    lemma_recompose_two(m);
}

/// Printing a valid date and parsing the ten characters back yields the
/// same date.
pub proof fn lemma_date_round_trip(d: Date)
    requires
        date_valid(d),
    ensures
        parse_date_seq(date_chars(d)) == Some(d),
{
    let s = date_chars(d);
    let y = d.year as int;
    let m = d.month as int;
    let dd = d.day as int;
    lemma_recompose_year(y);
    lemma_recompose_two(m);
    lemma_recompose_two(dd);
    assert(digit_val(digit_char(y / 1000)) == y / 1000);
    assert(digit_val(digit_char((y / 100) % 10)) == (y / 100) % 10);
    assert(digit_val(digit_char((y / 10) % 10)) == (y / 10) % 10);
    assert(digit_val(digit_char(y % 10)) == y % 10);
    assert(digit_val(digit_char(m / 10)) == m / 10);
    assert(digit_val(digit_char(m % 10)) == m % 10);
    assert(digit_val(digit_char(dd / 10)) == dd / 10);
    assert(digit_val(digit_char(dd % 10)) == dd % 10);
    assert(parse_date_seq(s) == Some(d));
}

} // verus!
