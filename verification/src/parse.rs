//! Verified parsers for the two textual shapes raw schedule rows carry:
//! calendar dates written `YYYYMMDD` and stop-time offsets written
//! `HH:MM:SS` (one or two hour digits; hours may exceed 23).

use vstd::prelude::*;

use crate::dates::{day_number_of, valid_ymd, Date};

verus! {

pub open spec fn is_digit_char(c: char) -> bool {
    48 <= c as u32 <= 57
}

pub open spec fn digit_val(c: char) -> int {
    c as u32 - 48
}

/// Value of the two digits at positions `i`, `i + 1`.
pub open spec fn num2(s: Seq<char>, i: int) -> int {
    digit_val(s[i]) * 10 + digit_val(s[i + 1])
}

/// Value of the four digits at positions `i` .. `i + 3`.
pub open spec fn num4(s: Seq<char>, i: int) -> int {
    digit_val(s[i]) * 1000 + digit_val(s[i + 1]) * 100 + digit_val(s[i + 2]) * 10 + digit_val(
        s[i + 3],
    )
}

pub open spec fn all_digits(s: Seq<char>) -> bool {
    forall|i: int| 0 <= i < s.len() ==> is_digit_char(#[trigger] s[i])
}

/// What parsing a `YYYYMMDD` date string yields: the day number of the
/// date it spells, or nothing if the string is not eight digits or does
/// not name a real date in years 1..=9999.
pub open spec fn parse_date_spec(s: Seq<char>) -> Option<int> {
    if s.len() == 8 && all_digits(s) && valid_ymd(num4(s, 0), num2(s, 4), num2(s, 6)) {
        Some(day_number_of(num4(s, 0), num2(s, 4), num2(s, 6)))
    } else {
        None
    }
}

/// What parsing an `HH:MM:SS` or `H:MM:SS` offset string yields: its
/// total count of seconds. Hours take one or two digits and may exceed
/// 23; minutes and seconds take exactly two digits.
pub open spec fn parse_duration_spec(s: Seq<char>) -> Option<int> {
    if s.len() == 8 && is_digit_char(s[0]) && is_digit_char(s[1]) && s[2] == ':' && is_digit_char(
        s[3],
    ) && is_digit_char(s[4]) && s[5] == ':' && is_digit_char(s[6]) && is_digit_char(s[7]) {
        Some(num2(s, 0) * 3600 + num2(s, 3) * 60 + num2(s, 6))
    } else if s.len() == 7 && is_digit_char(s[0]) && s[1] == ':' && is_digit_char(s[2])
        && is_digit_char(s[3]) && s[4] == ':' && is_digit_char(s[5]) && is_digit_char(s[6]) {
        Some(digit_val(s[0]) * 3600 + num2(s, 2) * 60 + num2(s, 5))
    } else {
        None
    }
}

/// Reads one character as a decimal digit.
fn digit_at(s: &str, i: usize) -> (r: Option<u32>)
    requires
        i < s@.len(),
    ensures
        match r {
            Some(v) => is_digit_char(s@[i as int]) && v == digit_val(s@[i as int]) && v <= 9,
            None => !is_digit_char(s@[i as int]),
        },
{
    let c = s.get_char(i);
    let v = c as u32;
    if 48 <= v && v <= 57 {
        Some(v - 48)
    } else {
        None
    }
}

/// Parses a `YYYYMMDD` date string into a date.
pub fn parse_date(s: &str) -> (r: Option<Date>)
    ensures
        match r {
            Some(date) => parse_date_spec(s@) == Some(date@) && date.wf(),
            None => parse_date_spec(s@) is None,
        },
{
    if s.unicode_len() != 8 {
        return None;
    }
    let d0 = digit_at(s, 0);
    let d1 = digit_at(s, 1);
    let d2 = digit_at(s, 2);
    let d3 = digit_at(s, 3);
    let d4 = digit_at(s, 4);
    let d5 = digit_at(s, 5);
    let d6 = digit_at(s, 6);
    let d7 = digit_at(s, 7);
    match (d0, d1, d2, d3, d4, d5, d6, d7) {
        (
            Some(v0),
            Some(v1),
            Some(v2),
            Some(v3),
            Some(v4),
            Some(v5),
            Some(v6),
            Some(v7),
        ) => {
            assert(all_digits(s@));
            let y: i64 = (v0 * 1000 + v1 * 100 + v2 * 10 + v3) as i64;
            let m: i64 = (v4 * 10 + v5) as i64;
            let d: i64 = (v6 * 10 + v7) as i64;
            Date::from_ymd(y, m, d)
        },
        _ => {
            assert(!all_digits(s@));
            None
        },
    }
}

/// Parses an `HH:MM:SS` (or `H:MM:SS`) offset string into its total
/// count of seconds past midnight.
pub fn parse_duration(s: &str) -> (r: Option<u32>)
    ensures
        match r {
            Some(v) => parse_duration_spec(s@) == Some(v as int),
            None => parse_duration_spec(s@) is None,
        },
{
    let n = s.unicode_len();
    if n == 8 {
        let h0 = digit_at(s, 0);
        let h1 = digit_at(s, 1);
        let c2 = s.get_char(2);
        let m0 = digit_at(s, 3);
        let m1 = digit_at(s, 4);
        let c5 = s.get_char(5);
        let s0 = digit_at(s, 6);
        let s1 = digit_at(s, 7);
        if c2 != ':' || c5 != ':' {
            return None;
        }
        match (h0, h1, m0, m1, s0, s1) {
            (Some(a), Some(b), Some(c), Some(d), Some(e), Some(f)) => {
                Some((a * 10 + b) * 3600 + (c * 10 + d) * 60 + (e * 10 + f))
            },
            _ => None,
        }
    } else if n == 7 {
        let h0 = digit_at(s, 0);
        let c1 = s.get_char(1);
        let m0 = digit_at(s, 2);
        let m1 = digit_at(s, 3);
        let c4 = s.get_char(4);
        let s0 = digit_at(s, 5);
        let s1 = digit_at(s, 6);
        if c1 != ':' || c4 != ':' {
            return None;
        }
        match (h0, m0, m1, s0, s1) {
            (Some(a), Some(c), Some(d), Some(e), Some(f)) => {
                Some(a * 3600 + (c * 10 + d) * 60 + (e * 10 + f))
            },
            _ => None,
        }
    } else {
        None
    }
}

} // verus!
